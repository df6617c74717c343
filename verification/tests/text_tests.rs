use scada_core::text::{chars_of, is_blank, is_whitespace, parse_i32_range, parse_id_list};

#[test]
fn id_lists_parse_like_the_chart_query() {
    assert_eq!(parse_id_list("1, 2,3").unwrap(), vec![1, 2, 3]);
    assert_eq!(parse_id_list(" 7 ").unwrap(), vec![7]);
    assert_eq!(parse_id_list("-4,+5").unwrap(), vec![-4, 5]);
    assert!(parse_id_list("").is_none());
    assert!(parse_id_list("1,,2").is_none());
    assert!(parse_id_list("1,a").is_none());
    assert!(parse_id_list("2147483648").is_none());
    assert_eq!(parse_id_list("2147483647").unwrap(), vec![i32::MAX]);
    assert_eq!(parse_id_list("-2147483648").unwrap(), vec![i32::MIN]);
}

#[test]
fn id_lists_agree_with_std() {
    for s in ["1,2", " 3 ,\t4", "x", "1 2", "+", "-", "\u{3000}9"] {
        let std: Result<Vec<i32>, _> = s.split(',').map(|p| p.trim().parse::<i32>()).collect();
        assert_eq!(parse_id_list(s), std.ok(), "{:?}", s);
    }
}

#[test]
fn whitespace_and_blank() {
    assert!(is_whitespace(' '));
    assert!(is_whitespace('\u{3000}'));
    assert!(!is_whitespace('a'));
    assert!(is_blank(" \n\t"));
    assert!(!is_blank(" a "));
}

#[test]
fn parse_a_slice_of_characters() {
    let cs = chars_of("ab-12cd");
    assert_eq!(parse_i32_range(&cs, 2, 5), Some(-12));
    assert_eq!(parse_i32_range(&cs, 0, 2), None);
    assert_eq!(parse_i32_range(&cs, 2, 2), None);
}
