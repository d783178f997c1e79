use chat_fanout::error::ChatError;
use chat_fanout::query::{parse_id, required_id};

#[test]
fn parse_id_reads_signed_decimals() {
    assert_eq!(parse_id("0"), Some(0));
    assert_eq!(parse_id("7"), Some(7));
    assert_eq!(parse_id("007"), Some(7));
    assert_eq!(parse_id("+12"), Some(12));
    assert_eq!(parse_id("-12"), Some(-12));
    assert_eq!(parse_id("-0"), Some(0));
    assert_eq!(parse_id("2147483647"), Some(i32::MAX));
    assert_eq!(parse_id("-2147483648"), Some(i32::MIN));
}

#[test]
fn parse_id_refuses_everything_else() {
    for text in ["", "+", "-", " 1", "1 ", "1.0", "0x10", "١", "2147483648", "-2147483649", "12a", "--1", "99999999999999999999"] {
        assert_eq!(parse_id(text), None, "{text:?}");
    }
}

#[test]
fn parse_id_agrees_with_the_standard_parser() {
    for text in ["0", "-1", "+1", "123456", "00", "2147483648", "abc", "", "+-1", "1_000"] {
        assert_eq!(parse_id(text), text.parse::<i32>().ok(), "{text:?}");
    }
}

#[test]
fn required_id_needs_the_parameter() {
    assert_eq!(required_id(None), Err(ChatError::Validation));
    assert_eq!(required_id(Some(&"x".to_string())), Err(ChatError::Validation));
    assert_eq!(required_id(Some(&"15".to_string())), Ok(15));
}
