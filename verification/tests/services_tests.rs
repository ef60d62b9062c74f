use weflow::answers::{
    anti_revoke_answer, db_scan_answer, display_name_for, emoji_answer, footprint_options,
    group_member_answer, insight_record_id, key_helper_answer, key_image_from_config, manual_insight_record,
    manual_trigger_reason, parse_trigger_action,
    runtime_info, ScanEntry, TriggerAction,
};
use weflow::error::ErrorKind;
use weflow::json::JsonValue;
use weflow::services::{AccountDir, AppContext, ConfigStore, ProfileConfig, ServiceHub};

fn s(t: &str) -> JsonValue {
    JsonValue::Str(t.to_string())
}

fn obj(fields: Vec<(&str, JsonValue)>) -> JsonValue {
    JsonValue::Object(fields.into_iter().map(|(k, v)| (k.to_string(), v)).collect())
}

fn ctx() -> AppContext {
    AppContext {
        home_dir: "/home/u/.weflow".into(),
        config_path: "/home/u/.weflow/config.json".into(),
        runtime_dir: "/home/u/.weflow/runtime".into(),
        version: "1.2.3".into(),
    }
}

fn profile(db: Option<&str>, key: Option<&str>, wxid: Option<&str>) -> ProfileConfig {
    ProfileConfig {
        db_path: db.map(String::from),
        decrypt_key: key.map(String::from),
        wxid: wxid.map(String::from),
        image_xor_key: Some(0x1A5),
        image_aes_key: None,
    }
}

fn config() -> ConfigStore {
    ConfigStore {
        current_profile: "main".into(),
        profiles: vec![
            ("main".into(), profile(Some("/data"), Some("abcd"), Some("wxid_me"))),
            ("bare".into(), profile(None, None, None)),
        ],
    }
}

#[test]
fn hub_uses_current_profile_by_default() {
    let hub = ServiceHub::new(ctx(), config(), None, None, None, None);
    assert_eq!(hub.profile_name(), "main");
    assert!(!hub.progress_enabled);
    let named = ServiceHub::new(ctx(), config(), Some("bare".into()), None, None, None);
    assert_eq!(named.profile_name(), "bare");
}

#[test]
fn connection_inputs_prefer_command_line() {
    let hub = ServiceHub::new(ctx(), config(), None, None, None, None);
    let c = hub.connection_inputs().unwrap();
    assert_eq!((c.db_path.as_str(), c.key.as_str(), c.wxid.as_deref()), ("/data", "abcd", Some("wxid_me")));
    let hub = ServiceHub::new(ctx(), config(), None, Some("/other".into()), Some("k2".into()), Some("w2".into()));
    let c = hub.connection_inputs().unwrap();
    assert_eq!((c.db_path.as_str(), c.key.as_str(), c.wxid.as_deref()), ("/other", "k2", Some("w2")));
}

#[test]
fn connection_inputs_errors() {
    let hub = ServiceHub::new(ctx(), config(), Some("nope".into()), None, None, None);
    let e = hub.connection_inputs().unwrap_err();
    assert_eq!(e.kind, ErrorKind::Config);
    assert_eq!(e.message, "profile not found: nope");
    let hub = ServiceHub::new(ctx(), config(), Some("bare".into()), None, None, None);
    let e = hub.connection_inputs().unwrap_err();
    assert_eq!(e.message, "missing db_path; pass --db-path or run config set db_path");
    let hub = ServiceHub::new(ctx(), config(), Some("bare".into()), Some("/d".into()), None, None);
    let e = hub.connection_inputs().unwrap_err();
    assert_eq!(e.kind, ErrorKind::Config);
    assert_eq!(e.message, "missing decrypt_key; pass --decrypt-key or run config set decrypt_key");
    let hub = ServiceHub::new(ctx(), config(), Some("bare".into()), Some("/d".into()), Some("k".into()), None);
    assert_eq!(hub.connection_inputs().unwrap().wxid, None);
}

#[test]
fn progress_and_unsupported() {
    let mut hub = ServiceHub::new(ctx(), config(), None, None, None, None);
    assert!(hub.emit_progress("images", "exporting images", 1, 3).is_none());
    hub.set_progress_enabled(true);
    assert!(hub.progress_enabled());
    assert!(hub.progress_enabled);
    let e = hub.emit_progress("images", "exporting images", 1, 3).unwrap();
    assert_eq!((e.stage.as_str(), e.message.as_str(), e.current, e.total), ("images", "exporting images", 1, 3));
    let err = hub.unsupported("chat summary").unwrap_err();
    assert_eq!(err.kind, ErrorKind::Runtime);
    assert_eq!(err.message, "chat summary is not yet ported to the native Rust CLI");
    assert_eq!(hub.analytics_excluded().unwrap(), obj(vec![("sessions", JsonValue::Array(vec![]))]));
}

#[test]
fn runtime_and_footprint() {
    let hub = ServiceHub::new(ctx(), config(), None, None, None, Some("w9".into()));
    let info = runtime_info(&hub, "x86_64-unknown-linux-gnu", 12);
    assert_eq!(info.get("assetCount"), Some(&JsonValue::Number("12".into())));
    assert_eq!(info.get("version"), Some(&s("1.2.3")));
    let opts = footprint_options(&hub).unwrap();
    let n0 = JsonValue::Number("0".into());
    assert_eq!(opts, obj(vec![("beginTimestamp", n0.duplicate()), ("endTimestamp", n0.duplicate()), ("myWxid", s("w9"))]));
    let bare = ServiceHub::new(ctx(), config(), Some("bare".into()), None, None, None);
    assert_eq!(
        footprint_options(&bare).unwrap(),
        obj(vec![("beginTimestamp", n0.duplicate()), ("endTimestamp", n0.duplicate()), ("myWxid", s(""))])
    );
}

#[test]
fn anti_revoke_results() {
    assert_eq!(parse_trigger_action("install"), Some(TriggerAction::Install));
    assert_eq!(parse_trigger_action("Install"), None);
    let sessions = vec!["a".to_string(), "b".to_string()];
    let r = anti_revoke_answer(&sessions, vec![Ok(obj(vec![("ok", JsonValue::Bool(true))])), Err("boom".into())]);
    assert_eq!(
        r,
        obj(vec![(
            "results",
            JsonValue::Array(vec![
                obj(vec![("sessionId", s("a")), ("success", JsonValue::Bool(true)), ("data", obj(vec![("ok", JsonValue::Bool(true))]))]),
                obj(vec![("sessionId", s("b")), ("success", JsonValue::Bool(false)), ("error", s("boom"))]),
            ])
        )])
    );
}

#[test]
fn scan_and_members() {
    let entries = vec![
        ScanEntry { name: "wxid_a".into(), path: "/r/wxid_a".into(), is_dir: true, has_markers: (false, true, false) },
        ScanEntry { name: "file".into(), path: "/r/file".into(), is_dir: false, has_markers: (true, true, true) },
        ScanEntry { name: "empty".into(), path: "/r/empty".into(), is_dir: true, has_markers: (false, false, false) },
    ];
    let r = db_scan_answer("/r", &entries);
    assert_eq!(r, obj(vec![("root", s("/r")), ("accounts", JsonValue::Array(vec![obj(vec![("wxid", s("wxid_a")), ("path", s("/r/wxid_a"))])]))]));
    let members = obj(vec![("members", JsonValue::Array(vec![s("x_bob_y")]))]);
    assert_eq!(
        group_member_answer("g@chatroom", "bob", &members, &vec!["\"x_bob_y\"".to_string()]),
        obj(vec![("chatroomId", s("g@chatroom")), ("username", s("bob")), ("member", s("x_bob_y"))])
    );
}

#[test]
fn names_keys_and_counts() {
    let c = obj(vec![("alias", s("al")), ("nickname", JsonValue::Null)]);
    assert_eq!(display_name_for(Some(&c), "sid"), "sid");
    assert_eq!(display_name_for(Some(&obj(vec![("alias", s("al"))])), "sid"), "al");
    assert_eq!(display_name_for(None, "sid"), "sid");
    assert_eq!(insight_record_id(1_700_000_000_123), "insight_1700000000123");
    assert_eq!(key_helper_answer("  abc\n").get("key"), Some(&s("abc")));
    let p = profile(None, None, None);
    let k = key_image_from_config(&p).unwrap();
    assert_eq!(k.get("imageKey"), Some(&obj(vec![("xorKey", JsonValue::Number("421".into()))])));
    let mut q = profile(None, None, None);
    q.image_xor_key = None;
    let e = key_image_from_config(&q).unwrap_err();
    assert_eq!(e.kind, ErrorKind::Native);
    let results = vec![obj(vec![("cached", JsonValue::Bool(true))]), obj(vec![]), s("x"), obj(vec![("cached", JsonValue::Bool(false))])];
    let r = emoji_answer(5, results);
    assert_eq!(r.get("downloaded"), Some(&JsonValue::Number("3".into())));
    assert_eq!(r.get("found"), Some(&JsonValue::Number("5".into())));
}

#[test]
fn account_directory_choice() {
    let hub = ServiceHub::new(ctx(), config(), None, None, None, None);
    match hub.connection_inputs().unwrap().account_dir() {
        AccountDir::Resolve { db_path, wxid } => assert_eq!((db_path.as_str(), wxid.as_str()), ("/data", "wxid_me")),
        AccountDir::Path(_) => panic!("an account id is configured"),
    }
    let hub = ServiceHub::new(ctx(), config(), Some("bare".into()), Some("/d".into()), Some("k".into()), None);
    match hub.connection_inputs().unwrap().account_dir() {
        AccountDir::Path(p) => assert_eq!(p, "/d"),
        AccountDir::Resolve { .. } => panic!("no account id is configured"),
    }
}

#[test]
fn manual_insight_records() {
    assert_eq!(manual_trigger_reason(), "manual");
    let r = manual_insight_record(1_700_000_000_123, 1_700_000_000_124, "sid", "Alice", "text");
    assert_eq!(r.id, "insight_1700000000123");
    assert_eq!(r.created_at, 1_700_000_000_124);
    assert_eq!((r.session_id.as_str(), r.display_name.as_str(), r.insight.as_str()), ("sid", "Alice", "text"));
    assert_eq!(r.trigger_reason, "manual");
    assert!(!r.read);
}
