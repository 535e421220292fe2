use differential_review::jumps::{remember_jump, MOST_PLACES};
use differential_review::scroll::{
    file_header_above, file_list, follow_cursor, follow_plan_scroll, half_page, highest_scroll, jump_hunk, move_cursor,
    next_selectable, plan_entry_at_line, row_at_line,
};

/// Twenty rows of one line each; the first two are the group's header.
fn plain_rows() -> (Vec<usize>, Vec<bool>) {
    let heights = vec![1; 20];
    let selectable = (0..20).map(|i| i >= 2).collect();
    (heights, selectable)
}

#[test]
fn the_cursor_walks_past_the_rows_it_cannot_stand_on() {
    let (_, sel) = plain_rows();
    assert_eq!(next_selectable(&sel, 0, 1), Some(2));
    assert_eq!(next_selectable(&sel, 19, -1), Some(19));
    assert_eq!(next_selectable(&sel, 1, -1), None);
    assert_eq!(next_selectable(&sel, 25, -1), None, "a walk that starts past the rows finds none");
    assert_eq!(next_selectable(&sel, 0, 5), Some(5));
}

#[test]
fn the_view_goes_no_lower_than_keeps_the_cursor_and_its_margin() {
    let (heights, sel) = plain_rows();
    // Rows 9 to 18 fill ten lines: the cursor on 15 and three rows below it.
    assert_eq!(highest_scroll(&heights, 10, 15), 9);
    assert_eq!(follow_cursor(&heights, &sel, 10, 15, 0), 9);
    // Moving up keeps three rows above the cursor.
    assert_eq!(follow_cursor(&heights, &sel, 10, 5, 9), 2);
    // On the first row it can stand on, the header above it shows.
    assert_eq!(follow_cursor(&heights, &sel, 10, 2, 5), 0);
    // A small pane still counts as eight lines.
    assert_eq!(highest_scroll(&heights, 3, 15), 11);
}

#[test]
fn a_row_taller_than_the_pane_pins_to_its_top() {
    let heights = vec![1, 1, 1, 1, 1, 20, 1, 1];
    let sel = vec![false, true, true, true, true, true, true, true];
    assert_eq!(highest_scroll(&heights, 10, 5), 5);
    assert_eq!(follow_cursor(&heights, &sel, 10, 5, 0), 5);
}

#[test]
fn a_click_names_a_line_and_a_wrapped_row_is_several() {
    let heights = [1, 3, 1];
    assert_eq!(row_at_line(&heights, 0, 0), Some(0));
    assert_eq!(row_at_line(&heights, 0, 2), Some(1));
    assert_eq!(row_at_line(&heights, 0, 4), Some(2));
    assert_eq!(row_at_line(&heights, 0, 5), None);
    assert_eq!(row_at_line(&heights, 1, 0), Some(1));
    assert_eq!(row_at_line(&heights, 3, 0), None);
}

#[test]
fn half_a_page_is_half_the_pane_in_lines() {
    let (heights, _) = plain_rows();
    assert_eq!(half_page(&heights, 10, 10, 1), 15);
    assert_eq!(half_page(&heights, 10, 10, -1), 5);
    assert_eq!(half_page(&heights, 10, 18, 1), 19, "stops on the last row");
    assert_eq!(half_page(&heights, 10, 2, -1), 0);
    assert_eq!(half_page(&heights, 0, 10, 1), 14, "eight lines at the least");
    assert_eq!(half_page(&[1, 1, 4, 1, 1], 10, 0, 1), 2, "a wrapped row spends its lines");
}

#[test]
fn moving_lands_only_where_the_cursor_may_stand_and_scrolls_after_it() {
    let (heights, sel) = plain_rows();
    assert_eq!(move_cursor(&heights, &sel, 10, 2, 0, -1), (2, 0), "nothing above but the header");
    assert_eq!(move_cursor(&heights, &sel, 10, 2, 0, 1), (3, 0));
    assert_eq!(move_cursor(&heights, &sel, 10, 15, 0, 1), (16, 10));
    assert_eq!(move_cursor(&heights, &sel, 10, 19, 10, 1), (19, 10), "held on the last row");
}

#[test]
fn the_selected_plan_block_stays_in_view() {
    let blocks = [3, 3, 2, 3, 3, 3];
    assert_eq!(follow_plan_scroll(&blocks, 4, 0, 8), 6);
    assert_eq!(follow_plan_scroll(&blocks, 0, 6, 8), 0);
    assert_eq!(follow_plan_scroll(&blocks, 2, 0, 8), 0);
    assert_eq!(follow_plan_scroll(&blocks, 9, 0, 8), 9, "past the last block: its end");
    assert_eq!(plan_entry_at_line(&blocks, 7), Some(2));
    assert_eq!(plan_entry_at_line(&blocks, 16), Some(5));
    assert_eq!(plan_entry_at_line(&blocks, 17), None);
}

#[test]
fn hunk_to_hunk_skips_the_rows_between_and_stops_at_either_end() {
    let headers = [false, true, false, false, true, false];
    assert_eq!(jump_hunk(&headers, 1, 1), Some(4));
    assert_eq!(jump_hunk(&headers, 4, -1), Some(1));
    assert_eq!(jump_hunk(&headers, 4, 1), None, "last hunk in this view");
    assert_eq!(jump_hunk(&headers, 0, -1), None, "first hunk in this view");
    assert_eq!(jump_hunk(&headers, 2, 1), Some(4));
}

#[test]
fn the_file_a_row_is_in_is_named_by_the_header_above_it() {
    let headers = [true, false, false, true, false];
    assert_eq!(file_header_above(&headers, 2), Some(0));
    assert_eq!(file_header_above(&headers, 3), Some(3));
    assert_eq!(file_header_above(&headers, 99), Some(3), "past the rows: the last one");
    assert_eq!(file_header_above(&[false, false], 1), None);
    assert_eq!(file_header_above(&[], 0), None);
}

#[test]
fn the_flat_list_names_each_file_once_in_the_order_the_rows_show_them() {
    let rows = [None, Some(4), None, Some(1), Some(4), None, Some(0), Some(1)];
    assert_eq!(file_list(&rows), [4, 1, 0]);
    assert!(file_list(&[None, None]).is_empty());
}

#[test]
fn the_jump_stack_keeps_the_latest_hundred_and_only_jumps_that_moved() {
    let mut jumps: Vec<usize> = Vec::new();
    remember_jump(&mut jumps, 7, false);
    assert!(jumps.is_empty(), "a jump that did not move is not remembered");
    for place in 0..101 {
        remember_jump(&mut jumps, place, true);
    }
    assert_eq!(jumps.len(), MOST_PLACES);
    assert_eq!(jumps.first(), Some(&1), "the oldest went");
    assert_eq!(jumps.pop(), Some(100), "back to where the last jump left from");
}
