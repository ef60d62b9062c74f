use weflow::json::JsonValue;
use weflow::wcdb::{
    check_answer, contact_query_sql, init_protection_result, json_answer_text, json_or_message,
    json_parse_failure, member_count_answer, not_available, session_ids_payload, WcdbState,
};

fn obj(fields: Vec<(&str, JsonValue)>) -> JsonValue {
    JsonValue::Object(fields.into_iter().map(|(k, v)| (k.to_string(), v)).collect())
}

#[test]
fn connection_state_machine() {
    let mut st = WcdbState::new();
    assert!(st.needs_init());
    assert_eq!(st.after_init(3).unwrap_err(), "wcdb_init failed with code 3");
    assert!(st.needs_init());
    assert!(st.after_init(0).is_ok());
    assert!(!st.needs_init());
    assert_eq!(st.require_handle().unwrap_err(), "WCDB is not connected");
    assert_eq!(st.after_open(0, 0).unwrap_err(), "wcdb_open_account failed with code 0");
    assert_eq!(st.after_open(-2, 5).unwrap_err(), "wcdb_open_account failed with code -2");
    assert!(st.after_open(0, 7).is_ok());
    assert_eq!(st.require_handle(), Ok(7));
    let plan = st.close();
    assert_eq!(plan.close_handle, Some(7));
    assert!(plan.shutdown);
    let again = st.close();
    assert_eq!(again.close_handle, None);
    assert!(!again.shutdown);
    assert!(init_protection_result(0).is_ok());
    assert_eq!(init_protection_result(1).unwrap_err(), "InitProtection failed with code 1");
}

#[test]
fn json_answers() {
    assert_eq!(json_answer_text(0, Some(r#"{"server_id":12345678901234567}"#)).unwrap(), r#"{"server_id":"12345678901234567"}"#);
    assert_eq!(json_answer_text(0, None).unwrap_err(), "WCDB call failed with code 0");
    assert_eq!(json_answer_text(4, Some("[]")).unwrap_err(), "WCDB call failed with code 4");
    let long = "x".repeat(250);
    assert_eq!(json_parse_failure(&long), format!("failed to parse WCDB JSON payload: {}", "x".repeat(200)));
    assert_eq!(json_parse_failure("{"), "failed to parse WCDB JSON payload: {");
}

#[test]
fn json_or_message_answers() {
    assert_eq!(json_or_message(2, "", None).unwrap_err(), "WCDB call failed with code 2");
    assert_eq!(json_or_message(2, "busy", None).unwrap_err(), "busy");
    assert_eq!(json_or_message(0, "", None).unwrap(), obj(vec![("ok", JsonValue::Bool(true))]));
    assert_eq!(json_or_message(0, "done", None).unwrap(), obj(vec![("message", JsonValue::Str("done".into()))]));
    let parsed = obj(vec![("n", JsonValue::Number("1".into()))]);
    assert_eq!(json_or_message(0, r#"{"n":1}"#, Some(parsed.duplicate())).unwrap(), parsed);
}

#[test]
fn check_and_count_answers() {
    assert_eq!(check_answer("anti revoke", 0, 2).unwrap(), obj(vec![("installed", JsonValue::Bool(true))]));
    assert_eq!(check_answer("anti revoke", 0, 0).unwrap(), obj(vec![("installed", JsonValue::Bool(false))]));
    assert_eq!(check_answer("sns block-delete", 9, 1).unwrap_err(), "sns block-delete check failed with code 9");
    assert_eq!(member_count_answer(0, 42).unwrap(), obj(vec![("count", JsonValue::Number("42".into()))]));
    assert_eq!(member_count_answer(-1, 42).unwrap_err(), "group member count failed with code -1");
    assert_eq!(not_available("wcdb_get_group_stats"), "wcdb_get_group_stats is not available");
}

#[test]
fn contact_query_escapes_quotes() {
    assert_eq!(contact_query_sql("wxid_1"), "SELECT * FROM contact WHERE username='wxid_1' LIMIT 1");
    assert_eq!(contact_query_sql("o'brien''"), "SELECT * FROM contact WHERE username='o''brien''''' LIMIT 1");
    assert_ne!(contact_query_sql("a'"), contact_query_sql("a''"));
}

#[test]
fn session_ids_payload_is_json() {
    let ids = vec!["a\"b".to_string(), "c\\d\u{1}".to_string(), "é".to_string()];
    let text = session_ids_payload(&ids).unwrap();
    assert_eq!(text, "[\"a\\\"b\",\"c\\\\d\\u0001\",\"é\"]");
    let back: Vec<String> = serde_json::from_str(&text).unwrap();
    assert_eq!(back, ids);
    assert_eq!(session_ids_payload(&vec![]).unwrap(), "[]");
}
