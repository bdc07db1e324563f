use cardsheets::names::{
    card_file_name, page_prefix_name, part_file_name, rows_file_name, sheet_file_name,
};
use cardsheets::text::{
    chars_of, has_prefix, join, push_decimal, push_padded, push_signed_padded,
};

#[test]
fn card_names_are_padded_to_three_digits() {
    assert_eq!(card_file_name(0), "c-000.png");
    assert_eq!(card_file_name(5), "c-005.png");
    assert_eq!(card_file_name(66), "c-066.png");
    assert_eq!(card_file_name(123), "c-123.png");
    assert_eq!(card_file_name(1234), "c-1234.png");
}

#[test]
fn card_names_of_negative_positions_count_the_sign() {
    assert_eq!(card_file_name(-5), "c--05.png");
    assert_eq!(card_file_name(-12), "c--12.png");
    assert_eq!(card_file_name(-123), "c--123.png");
}

#[test]
fn card_names_agree_with_std_formatting() {
    let samples: [i64; 12] =
        [0, 1, 9, 10, 99, 100, 999, 1000, -1, -99, i64::MAX, i64::MIN];
    for n in samples {
        assert_eq!(card_file_name(n), format!("c-{:>03}.png", n));
    }
}

#[test]
fn page_prefixes_agree_with_std_formatting() {
    for n in [0u64, 1, 9, 10, 23, 78, 100, 999, 1000, u64::MAX] {
        assert_eq!(page_prefix_name(n), format!("x-{:>03}", n));
    }
}

#[test]
fn mosaic_artifact_names() {
    assert_eq!(part_file_name(0, 0), "part-00-00.png");
    assert_eq!(part_file_name(3, 9), "part-03-09.png");
    assert_eq!(part_file_name(12, 100), "part-12-100.png");
    assert_eq!(rows_file_name(0), "part-00-XX.png");
    assert_eq!(rows_file_name(7), "part-07-XX.png");
    assert_eq!(sheet_file_name("abc-123"), "_-abc-123.png");
}

#[test]
fn decimal_pushes_append() {
    let mut s = String::from("n=");
    push_decimal(&mut s, 0);
    push_decimal(&mut s, 907);
    assert_eq!(s, "n=0907");
    let mut t = String::new();
    push_padded(&mut t, 7, 0);
    push_padded(&mut t, 7, 1);
    push_padded(&mut t, 7, 4);
    assert_eq!(t, "770007");
    let mut u = String::new();
    push_signed_padded(&mut u, -7, 0);
    push_signed_padded(&mut u, -7, 1);
    push_signed_padded(&mut u, -7, 4);
    assert_eq!(u, "-7-7-007");
}

#[test]
fn chars_are_read_in_order() {
    assert_eq!(chars_of("x-0é1"), vec!['x', '-', '0', 'é', '1']);
    assert_eq!(chars_of(""), vec![]);
}

#[test]
fn prefix_test() {
    let text = chars_of("x-005.png");
    assert!(has_prefix(&text, &chars_of("x-005")));
    assert!(has_prefix(&text, &chars_of("")));
    assert!(has_prefix(&text, &chars_of("x-005.png")));
    assert!(!has_prefix(&text, &chars_of("x-05")));
    assert!(!has_prefix(&text, &chars_of("x-005.png0")));
}

#[test]
fn join_puts_the_separator_between() {
    assert_eq!(join(&vec![], "_"), "");
    assert_eq!(join(&vec!["a".to_string()], "_"), "a");
    assert_eq!(
        join(&vec!["a".to_string(), "".to_string(), "c".to_string()], "_"),
        "a__c"
    );
}
