use gantt_purely_rust::text::{
    decimal_string, digit_text, push_spaces, right_align, two_digit_string,
};

#[test]
fn test_digit_text() {
    let digits: Vec<&str> = (0..10).map(digit_text).collect();
    assert_eq!(digits, vec!["0", "1", "2", "3", "4", "5", "6", "7", "8", "9"]);
}

#[test]
fn test_decimal_string() {
    assert_eq!(decimal_string(0), "0");
    assert_eq!(decimal_string(7), "7");
    assert_eq!(decimal_string(10), "10");
    assert_eq!(decimal_string(31), "31");
    assert_eq!(decimal_string(53), "53");
    assert_eq!(decimal_string(100), "100");
    assert_eq!(decimal_string(4294967295), "4294967295");
}

#[test]
fn test_decimal_string_agrees_with_to_string() {
    for n in (0..2000u32).chain([65535, 99999, 100000, 123456789, u32::MAX - 1]) {
        assert_eq!(decimal_string(n), n.to_string());
    }
}

#[test]
fn test_two_digit_string() {
    assert_eq!(two_digit_string(0), "00");
    assert_eq!(two_digit_string(5), "05");
    assert_eq!(two_digit_string(25), "25");
    assert_eq!(two_digit_string(99), "99");
    assert_eq!(two_digit_string(100), "00");
    assert_eq!(two_digit_string(2026), "26");
}

#[test]
fn test_push_spaces() {
    let mut text = String::from("ab");
    push_spaces(&mut text, 0);
    assert_eq!(text, "ab");
    push_spaces(&mut text, 3);
    assert_eq!(text, "ab   ");
}

#[test]
fn test_right_align_pads_on_the_left() {
    assert_eq!(right_align("6", 3), "  6");
    assert_eq!(right_align("Dec", 3), "Dec");
    assert_eq!(right_align("Q4", 19), "                 Q4");
    assert_eq!(right_align("", 3), "   ");
    assert_eq!(right_align("", 0), "");
}

#[test]
fn test_right_align_keeps_long_text_whole() {
    assert_eq!(right_align("January", 3), "January");
    assert_eq!(right_align("ab", 0), "ab");
}

#[test]
fn test_right_align_counts_characters() {
    assert_eq!(right_align("é", 3), "  é");
    assert_eq!(right_align("日本", 3), " 日本");
}
