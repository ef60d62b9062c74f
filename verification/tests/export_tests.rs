use weflow::export::{build_nickname_map, message_create_time, sort_by_create_time, wants_group_nicknames, MessagePager, NicknameMap, PAGE_SIZE};
use weflow::json::JsonValue;
use std::collections::HashMap;

fn s(t: &str) -> JsonValue {
    JsonValue::Str(t.to_string())
}

fn n(t: &str) -> JsonValue {
    JsonValue::Number(t.to_string())
}

fn obj(fields: Vec<(&str, JsonValue)>) -> JsonValue {
    JsonValue::Object(fields.into_iter().map(|(k, v)| (k.to_string(), v)).collect())
}

fn msg(t: JsonValue, id: &str) -> JsonValue {
    obj(vec![("create_time", t), ("id", s(id))])
}

fn as_map(m: &NicknameMap) -> HashMap<String, String> {
    m.pairs().iter().cloned().collect()
}

#[test]
fn create_times() {
    assert_eq!(message_create_time(&msg(s("1700000000"), "a")), 1_700_000_000);
    assert_eq!(message_create_time(&msg(n("-5"), "a")), -5);
    assert_eq!(message_create_time(&msg(s("abc"), "a")), 0);
    assert_eq!(message_create_time(&msg(n("1.5"), "a")), 0);
    assert_eq!(message_create_time(&obj(vec![])), 0);
}

#[test]
fn nickname_map_prefers_group_names() {
    let contacts = JsonValue::Array(vec![
        obj(vec![("username", s("u1")), ("nickName", s("")), ("remark", s("R1"))]),
        obj(vec![("wxid", s("u2")), ("alias", s("A2"))]),
        obj(vec![("username", n("3")), ("wxid", s("ignored")), ("nickName", s("N3"))]),
        obj(vec![("username", s("u4"))]),
        obj(vec![("username", s("u1")), ("nickName", s("N1"))]),
    ]);
    let group = obj(vec![("nicknames", obj(vec![("u2", s("G2")), ("u5", s("")), ("u6", s("G6")), ("u7", n("1"))]))]);
    let m = build_nickname_map(Some(&contacts), Some(&group));
    let expected: HashMap<String, String> = [("u1", "N1"), ("u2", "G2"), ("u4", "u4"), ("u6", "G6")]
        .iter()
        .map(|(a, b)| (a.to_string(), b.to_string()))
        .collect();
    assert_eq!(as_map(&m), expected);
    assert!(as_map(&build_nickname_map(None, None)).is_empty());
    assert!(wants_group_nicknames("123@chatroom"));
    assert!(!wants_group_nicknames("@chatroom1"));
}

#[test]
fn pager_collects_range_and_stops_before_start() {
    let mut p = MessagePager::new(Some(100), Some(200));
    assert_eq!(p.next_request(), Some((PAGE_SIZE, 0)));
    let page: Vec<JsonValue> = (0..PAGE_SIZE).map(|i| msg(n(&(700 - i).to_string()), "x")).collect();
    p.accept(&JsonValue::Array(page));
    assert!(!p.finished);
    assert_eq!(p.offset, PAGE_SIZE);
    assert_eq!(p.collected.len(), 0); // 700 down to 201: none in range, none before it
    let page2 = JsonValue::Array(vec![msg(n("150"), "a"), msg(n("99"), "b"), msg(n("250"), "c")]);
    p.accept(&page2);
    assert!(p.finished);
    assert_eq!(p.offset, PAGE_SIZE + 3);
    assert_eq!(p.collected, vec![msg(n("150"), "a")]);
    assert_eq!(p.next_request(), None);
}

#[test]
fn pager_stops_on_empty_or_non_array() {
    let mut p = MessagePager::new(None, None);
    p.accept(&JsonValue::Array(vec![]));
    assert!(p.finished);
    assert_eq!(p.offset, 0);
    let mut q = MessagePager::new(None, None);
    q.accept(&obj(vec![("error", s("x"))]));
    assert!(q.finished);
    let mut r = MessagePager::new(None, Some(10));
    r.accept(&JsonValue::Array(vec![msg(n("5"), "a"), msg(n("10"), "b")]));
    assert!(r.finished);
    assert_eq!(r.collected, vec![msg(n("5"), "a")]);
}

#[test]
fn sort_is_stable_by_time() {
    let msgs = vec![
        msg(n("30"), "a"),
        msg(s("10"), "b"),
        msg(n("30"), "c"),
        msg(s("x"), "d"),
        msg(n("10"), "e"),
    ];
    let sorted = sort_by_create_time(&msgs);
    let ids: Vec<String> = sorted.iter().map(|m| m.get("id").unwrap().as_str().unwrap().clone()).collect();
    assert_eq!(ids, vec!["d", "b", "e", "a", "c"]);
    let mut expected = msgs.iter().map(|m| m.duplicate()).collect::<Vec<_>>();
    expected.sort_by_key(message_create_time);
    assert_eq!(sorted, expected);
    assert!(sort_by_create_time(&vec![]).is_empty());
}
