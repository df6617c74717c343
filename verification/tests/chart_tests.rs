use scada_core::chart::{background_color, border_color, chart_status, chart_time_ms, dataset_included, replace_all};

#[test]
fn colours_are_taken_in_turn() {
    assert_eq!(border_color(0), "rgb(255, 99, 132)");
    assert_eq!(border_color(9), "rgb(99, 255, 132)");
    assert_eq!(border_color(10), "rgb(255, 99, 132)");
    assert_eq!(border_color(13), "rgb(75, 192, 192)");
}

#[test]
fn fill_colour_is_the_line_colour_faded() {
    assert_eq!(background_color("rgb(255, 99, 132)"), "rgba(255, 99, 132, 0.1)");
    for i in 0..10 {
        let c = border_color(i);
        assert_eq!(background_color(c), c.replace("rgb", "rgba").replace(')', ", 0.1)"));
    }
}

#[test]
fn replace_matches_std() {
    for (s, f, t) in [("aaa", "aa", "b"), ("abcabc", "bc", ""), ("", "x", "y"), ("xyz", "q", "r"), ("ééé", "é", "e")] {
        assert_eq!(replace_all(s, f, t), s.replace(f, t), "{:?}", (s, f, t));
    }
}

#[test]
fn chart_time_is_in_milliseconds() {
    assert_eq!(chart_time_ms(1_700_000_000), 1_700_000_000_000);
    assert_eq!(chart_time_ms(-5), -5_000);
}

#[test]
fn values_without_data_are_skipped() {
    assert!(dataset_included(true, Some(3)));
    assert!(!dataset_included(true, Some(0)));
    assert!(!dataset_included(true, None));
    assert!(!dataset_included(false, Some(3)));
}

#[test]
fn chart_without_datasets_is_not_found() {
    assert_eq!(chart_status(&vec![]), 404);
    assert_eq!(chart_status(&vec![false, false]), 404);
    assert_eq!(chart_status(&vec![false, true]), 200);
}
