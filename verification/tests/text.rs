use okina_bot_kotoba_web::json::{parse_json_text, JsonNumber, JsonValue};
use okina_bot_kotoba_web::text::{chars_of, contains_str, decimal_string, join_pieces, parse_u64};
use okina_bot_kotoba_web::utils::Pipe;

#[test]
fn decimal_notation() {
    assert_eq!(decimal_string(0), "0");
    assert_eq!(decimal_string(7), "7");
    assert_eq!(decimal_string(305), "305");
    assert_eq!(decimal_string(u64::MAX), "18446744073709551615");
}

#[test]
fn parse_u64_as_std_does() {
    assert_eq!(parse_u64("0"), Some(0));
    assert_eq!(parse_u64("+42"), Some(42));
    assert_eq!(parse_u64("18446744073709551615"), Some(u64::MAX));
    assert_eq!(parse_u64("18446744073709551616"), None);
    assert_eq!(parse_u64(""), None);
    assert_eq!(parse_u64("+"), None);
    assert_eq!(parse_u64("-1"), None);
    assert_eq!(parse_u64("12a"), None);
    assert_eq!(parse_u64(" 1"), None);
    for s in ["0", "+42", "007", "18446744073709551615", "", "+", "-0", "1_0", "٣"] {
        assert_eq!(parse_u64(s), s.parse::<u64>().ok(), "{}", s);
    }
}

#[test]
fn parse_reads_back_decimal() {
    for n in [0u64, 1, 9, 10, 99, 123456789, u64::MAX] {
        assert_eq!(parse_u64(&decimal_string(n)), Some(n));
    }
}

#[test]
fn join_folds_with_separator() {
    let pieces = vec!["a".to_string(), "".to_string(), "b".to_string()];
    assert_eq!(join_pieces(&pieces, "+"), "a++b");
    let leading = vec!["".to_string(), "x".to_string(), "y".to_string()];
    assert_eq!(join_pieces(&leading, ", "), "x, y");
    assert_eq!(join_pieces(&[], "+"), "");
}

#[test]
fn substring_search() {
    assert!(contains_str("Quiz Ended", "Ended"));
    assert!(!contains_str("Quiz ended", "Ended"));
    assert!(contains_str("abc", ""));
    assert!(!contains_str("", "a"));
    assert!(contains_str("日本語", "本"));
    assert_eq!(chars_of("日本"), vec!['日', '本']);
}

#[test]
fn json_text_is_parsed_by_serde_json() {
    let v = parse_json_text(r#"{"a": [1, -2, 3.5, "s", true, null], "b": {"c": 18446744073709551615}}"#).unwrap();
    let a = v.get("a").unwrap().as_array().unwrap();
    assert_eq!(a.len(), 6);
    assert_eq!(a[0].as_u64(), Some(1));
    assert!(matches!(a[1], JsonValue::Number(JsonNumber::NegInt(-2))));
    assert!(matches!(a[2], JsonValue::Number(JsonNumber::Float)));
    assert_eq!(a[1].as_u64(), None);
    assert_eq!(a[3].as_str().map(|s| s.as_str()), Some("s"));
    assert_eq!(a[4].as_bool(), Some(true));
    assert!(matches!(a[5], JsonValue::Null));
    assert_eq!(v.get("b").unwrap().get("c").unwrap().as_u64(), Some(u64::MAX));
    assert!(v.get("z").is_none());
    assert!(v.get_at(0).is_none());
    assert_eq!(v.get("a").unwrap().get_at(3).unwrap().as_str().unwrap(), "s");
    assert!(parse_json_text("{not json").is_none());
    assert!(parse_json_text("").is_none());
}

#[test]
fn json_keys_are_unique_after_parsing() {
    let v = parse_json_text(r#"{"k": 1, "k": 2}"#).unwrap();
    assert_eq!(v.get("k").unwrap().as_u64(), Some(2));
}

#[test]
fn pipe_applies_functions_in_order() {
    let p = Pipe::new(3u64) >> (|x: u64| x + 1) >> (|x: u64| x * 10);
    let _ = p;
    let _ = Pipe::new("text");
}
