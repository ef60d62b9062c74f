use weflow::base64::base64_encode;
use weflow::normalize::normalize_int64_json;
use weflow::text::{format_i64, parse_i64, parse_u32, string_of, str_contains, trim_bounds, with_code};

fn chars(s: &str) -> Vec<char> {
    s.chars().collect()
}

#[test]
fn base64_examples() {
    assert_eq!(base64_encode(b""), "");
    assert_eq!(base64_encode(b"f"), "Zg==");
    assert_eq!(base64_encode(b"fo"), "Zm8=");
    assert_eq!(base64_encode(b"foo"), "Zm9v");
    assert_eq!(base64_encode(b"hello"), "aGVsbG8=");
    assert_eq!(base64_encode(&[0xff, 0xfe, 0xfd, 0x00]), "//79AA==");
}

#[test]
fn base64_length_law() {
    for n in 0..20usize {
        let data: Vec<u8> = (0..n).map(|i| (i * 37) as u8).collect();
        let text = base64_encode(&data);
        assert_eq!(text.len(), 4 * ((n + 2) / 3));
        assert!(text.chars().all(|c| c.is_ascii_alphanumeric() || c == '+' || c == '/' || c == '='));
    }
}

#[test]
fn normalize_quotes_long_server_ids() {
    assert_eq!(
        normalize_int64_json(r#"{"server_id":1234567890123456789,"x":1}"#),
        r#"{"server_id":"1234567890123456789","x":1}"#
    );
    assert_eq!(
        normalize_int64_json(r#"[{"server_id": -1234567890123456},{"server_id":123}]"#),
        r#"[{"server_id": "-1234567890123456"},{"server_id":123}]"#
    );
    assert_eq!(
        normalize_int64_json(r#"{"server_id":123456789012345}"#),
        r#"{"server_id":123456789012345}"#
    );
}

#[test]
fn normalize_leaves_other_text_alone() {
    let text = r#"{"id":12345678901234567890,"name":"é"}"#;
    assert_eq!(normalize_int64_json(text), text);
    let quoted = r#"{"server_id":"1234567890123456789"}"#;
    assert_eq!(normalize_int64_json(quoted), quoted);
    assert_eq!(normalize_int64_json(""), "");
}

#[test]
fn decimal_text_round_trip() {
    for n in [0i64, 7, -7, 10, 99, -100, i64::MAX, i64::MIN, 1_704_067_200] {
        let text = string_of(&format_i64(n));
        assert_eq!(text, n.to_string());
        assert_eq!(parse_i64(&chars(&text)), Some(n));
    }
}

#[test]
fn integer_parsing_follows_from_str() {
    for s in ["", "+", "-", "12a", " 1", "1 ", "0x10", "9223372036854775808", "--1", "+-1"] {
        assert_eq!(parse_i64(&chars(s)), s.parse::<i64>().ok(), "{s:?}");
    }
    for s in ["+5", "-5", "007", "-9223372036854775808", "9223372036854775807"] {
        assert_eq!(parse_i64(&chars(s)), s.parse::<i64>().ok(), "{s:?}");
    }
    for s in ["", "+", "-", "-0", "+12", "4294967295", "4294967296", "12345", "١٢"] {
        assert_eq!(parse_u32(&chars(s)), s.parse::<u32>().ok(), "{s:?}");
    }
}

#[test]
fn trim_and_contains() {
    let v = chars("\u{3000} \tab c\n\u{85}");
    let (lo, hi) = trim_bounds(&v);
    assert_eq!(v[lo..hi].iter().collect::<String>(), "ab c");
    let blank = chars(" \t ");
    let (lo, hi) = trim_bounds(&blank);
    assert_eq!(lo, hi);
    assert!(str_contains("abc@chatroom", "@chatroom"));
    assert!(!str_contains("abc@chat", "@chatroom"));
    assert!(str_contains("abc", ""));
    assert_eq!(with_code("failed with code ", -3), "failed with code -3");
}

#[test]
fn normalize_twice_is_once_and_adds_two_quotes_per_number() {
    let raw = r#"[{"server_id":12345678901234567,"a":1},{"server_id": -1234567890123456},{"server_id":7}]"#;
    let once = normalize_int64_json(raw);
    assert_eq!(normalize_int64_json(&once), once);
    assert_eq!(once.chars().count(), raw.chars().count() + 4);
}
