use depnav::ui::format::get_size;
use depnav::ui::viewport::{compute_viewport, table_rows, visible_range};

#[test]
fn viewport_scrolls_down_one_row_at_a_time() {
    assert_eq!(compute_viewport(6, 2, 5), 2);
    assert_eq!(compute_viewport(7, 2, 5), 3);
}

#[test]
fn viewport_scrolls_up_to_the_selection() {
    assert_eq!(compute_viewport(3, 2, 5), 2);
    assert_eq!(compute_viewport(1, 2, 5), 1);
}

#[test]
fn viewport_stays_while_selection_is_shown() {
    assert_eq!(compute_viewport(2, 2, 5), 2);
    assert_eq!(compute_viewport(4, 2, 5), 2);
    assert_eq!(compute_viewport(0, 0, 0), 1);
    assert_eq!(compute_viewport(0, 0, 1), 0);
}

#[test]
fn viewport_with_large_numbers() {
    assert_eq!(compute_viewport(usize::MAX - 1, usize::MAX - 1, usize::MAX), usize::MAX - 1);
    assert_eq!(compute_viewport(usize::MAX - 1, 0, 5), 1);
}

#[test]
fn table_rows_leave_out_the_frame() {
    assert_eq!(table_rows(0), 0);
    assert_eq!(table_rows(2), 0);
    assert_eq!(table_rows(3), 0);
    assert_eq!(table_rows(25), 22);
}

#[test]
fn visible_range_is_cut_at_the_end() {
    assert_eq!(visible_range(10, 2, 5), (2, 7));
    assert_eq!(visible_range(10, 8, 5), (8, 10));
    assert_eq!(visible_range(10, 12, 5), (10, 10));
    assert_eq!(visible_range(0, 0, 5), (0, 0));
    assert_eq!(visible_range(10, 3, usize::MAX), (3, 10));
}

#[test]
fn sizes_are_shown_in_whole_units() {
    assert_eq!(get_size(0), "0 B");
    assert_eq!(get_size(1023), "1023 B");
    assert_eq!(get_size(1024), "1 KB");
    assert_eq!(get_size(4000), "3 KB");
    assert_eq!(get_size(1024 * 1024 - 1), "1023 KB");
    assert_eq!(get_size(1024 * 1024), "1 MB");
    assert_eq!(get_size(5 * 1024 * 1024 * 1024), "5 GB");
    assert_eq!(get_size(u64::MAX), "17179869183 GB");
}
