use rmm2::ui::utils::{fit_info, select_next_index, select_prev_index};

#[test]
fn fit_info_wraps_words() {
    assert_eq!(fit_info("aa bb cc", 7), "\naa bb \ncc ");
    assert_eq!(fit_info("aa bb cc", 6), "\naa \nbb \ncc ");
    assert_eq!(fit_info("one\ntwo three", 100), "\none \ntwo three ");
    assert_eq!(fit_info("", 10), "\n");
}

#[test]
fn fit_info_breaks_before_long_word() {
    assert_eq!(fit_info("abcdef x", 3), "\n\nabcdef \nx ");
}

#[test]
fn selection_moves() {
    assert_eq!(select_next_index(None, 3), Some(0));
    assert_eq!(select_next_index(Some(1), 3), Some(2));
    assert_eq!(select_next_index(Some(2), 3), Some(2));
    assert_eq!(select_prev_index(None), Some(0));
    assert_eq!(select_prev_index(Some(2)), Some(1));
    assert_eq!(select_prev_index(Some(0)), Some(0));
}

#[test]
fn moving_down_then_up_returns() {
    assert_eq!(select_prev_index(select_next_index(Some(1), 4)), Some(1));
    assert_eq!(select_next_index(select_prev_index(Some(3)), 4), Some(3));
}

#[test]
fn fit_info_keeps_words_and_bounds_lines() {
    let src = "A long description of a mod option\nwith a second paragraph that wraps at a narrow width";
    let out = fit_info(src, 12);
    let words_in: Vec<&str> = src.split_whitespace().collect();
    let words_out: Vec<&str> = out.split_whitespace().collect();
    assert_eq!(words_in, words_out);
    for line in out.split('\n') {
        let first = line.split_whitespace().count() <= 1;
        assert!(first || line.len() < 12);
    }
}
