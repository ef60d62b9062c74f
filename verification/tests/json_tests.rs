use weflow::json::JsonValue;
use weflow::sessions::{extract_session_ids, filter_group_sessions, find_member, session_id_from_value};

fn s(t: &str) -> JsonValue {
    JsonValue::Str(t.to_string())
}

fn n(t: &str) -> JsonValue {
    JsonValue::Number(t.to_string())
}

fn obj(fields: Vec<(&str, JsonValue)>) -> JsonValue {
    JsonValue::Object(fields.into_iter().map(|(k, v)| (k.to_string(), v)).collect())
}

#[test]
fn lookups() {
    let v = obj(vec![("a", n("42")), ("b", s("text")), ("a", n("7"))]);
    assert_eq!(v.get("a"), Some(&n("42")));
    assert_eq!(v.get("z"), None);
    assert_eq!(s("x").get("a"), None);
    assert_eq!(v.get("b").unwrap().as_str().map(|t| t.as_str()), Some("text"));
    assert_eq!(n("42").as_i64(), Some(42));
    assert_eq!(n("-42").as_i64(), Some(-42));
    assert_eq!(n("4.5").as_i64(), None);
    assert_eq!(n("9223372036854775808").as_i64(), None);
    assert_eq!(s("42").as_i64(), None);
    assert_eq!(JsonValue::integer(-17), n("-17"));
    assert_eq!(JsonValue::count(0), n("0"));
    assert_eq!(v.duplicate(), v);
}

#[test]
fn session_ids_from_entries() {
    assert_eq!(session_id_from_value(&s("wxid_a")), Some("wxid_a".to_string()));
    assert_eq!(session_id_from_value(&n("5")), None);
    let e = obj(vec![("session_id", s("  ")), ("sessionId", n("3")), ("username", s("u1")), ("id", s("i1"))]);
    assert_eq!(session_id_from_value(&e), Some("i1".to_string()));
    let e = obj(vec![("strUsrName", s("last")), ("talker", s("\t"))]);
    assert_eq!(session_id_from_value(&e), Some("last".to_string()));
    assert_eq!(session_id_from_value(&obj(vec![("name", s("x"))])), None);
    let list = JsonValue::Array(vec![s("a"), obj(vec![("userName", s("b"))]), JsonValue::Null, obj(vec![])]);
    assert_eq!(extract_session_ids(&list), vec!["a".to_string(), "b".to_string()]);
    assert!(extract_session_ids(&obj(vec![("a", s("b"))])).is_empty());
}

#[test]
fn group_sessions_only() {
    let list = JsonValue::Array(vec![
        s("1@chatroom"),
        obj(vec![("username", s("friend"))]),
        obj(vec![("username", s("2@chatroom")), ("unread", n("3"))]),
        n("1"),
    ]);
    let groups = filter_group_sessions(list);
    assert_eq!(
        groups,
        JsonValue::Array(vec![s("1@chatroom"), obj(vec![("username", s("2@chatroom")), ("unread", n("3"))])])
    );
    let again = filter_group_sessions(groups.duplicate());
    assert_eq!(again, groups);
    for id in extract_session_ids(&groups) {
        assert!(id.contains("@chatroom"));
    }
    let not_list = obj(vec![("error", s("x"))]);
    assert_eq!(filter_group_sessions(not_list.duplicate()), not_list);
}

#[test]
fn member_lookup_by_text() {
    let alice = obj(vec![("username", s("alice"))]);
    let bob = obj(vec![("username", s("bob"))]);
    let members = obj(vec![("members", JsonValue::Array(vec![alice.duplicate(), bob.duplicate()]))]);
    let texts = vec![r#"{"username":"alice"}"#.to_string(), r#"{"username":"bob"}"#.to_string()];
    assert_eq!(find_member(&members, &texts, "bob"), bob);
    assert_eq!(find_member(&members, &texts, "username"), alice);
    assert_eq!(find_member(&members, &texts, "carol"), JsonValue::Null);
    assert_eq!(find_member(&members, &texts[..1].to_vec(), "bob"), JsonValue::Null);
    assert_eq!(find_member(&obj(vec![("members", s("bob"))]), &vec!["\"bob\"".to_string()], "bob"), JsonValue::Null);
}
