use git_stats::chart::{bar_height, bar_layout};

#[test]
fn layout_widens_gap_while_bars_fit() {
    assert_eq!(bar_layout(80, 4), (18, 2));
    assert_eq!(bar_layout(100, 3), (32, 2));
}

#[test]
fn layout_single_bar_keeps_default_gap() {
    assert_eq!(bar_layout(10, 1), (8, 2));
    assert_eq!(bar_layout(11, 1), (10, 1));
}

#[test]
fn layout_on_narrow_screen() {
    assert_eq!(bar_layout(0, 5), (2, 1));
    assert_eq!(bar_layout(3, 1), (2, 1));
}

#[test]
fn height_in_rows_and_eighths() {
    assert_eq!(bar_height(10, 5, 8), (6, 2));
    assert_eq!(bar_height(10, 8, 8), (10, 0));
    assert_eq!(bar_height(0, 3, 7), (0, 0));
    assert_eq!(bar_height(7, 1, 3), (2, 2));
    assert_eq!(bar_height(u32::MAX, u32::MAX, u32::MAX), (u32::MAX, 0));
}
