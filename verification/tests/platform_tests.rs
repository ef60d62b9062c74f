use weflow::images::{
    aes_key_from_hex, aes_key_text_readable, dat_decrypt_key, image_inline_answer, media_export_answer, media_kinds,
    media_progress_labels, xor_key_byte,
};
use weflow::json::JsonValue;
use weflow::paths::{
    default_db_candidates, is_session_db_name, join, wcdb_api_path, wcdb_api_candidates, wcdb_dependency_paths,
    DirEntryInfo, SessionDbSearch, TargetOs,
};
use weflow::process::{pid_from_pgrep, pid_from_tasklist};

#[test]
fn joins_paths() {
    assert_eq!(join("/home/u", "xwechat_files", TargetOs::Linux), "/home/u/xwechat_files");
    assert_eq!(join("/home/u/", "a/b", TargetOs::Linux), "/home/u/a/b");
    assert_eq!(join("", "a", TargetOs::Linux), "a");
    assert_eq!(join("C:\\Users\\u", "Documents/WeChat Files", TargetOs::Windows), "C:\\Users\\u\\Documents/WeChat Files");
    assert_eq!(join("C:\\Users\\u\\", "x", TargetOs::Windows), "C:\\Users\\u\\x");
}

#[test]
fn joins_paths_as_std_does() {
    assert_eq!(join("/a", "/b", TargetOs::Linux), "/b");
    assert_eq!(join("C:", "db_storage", TargetOs::Windows), "C:db_storage");
    assert_eq!(join("C:/", "db_storage", TargetOs::Windows), "C:/db_storage");
    assert_eq!(
        join(r"\\?\C:\Users\u", "wcdb/win32/x64/wcdb_api.dll", TargetOs::Windows),
        r"\\?\C:\Users\u\wcdb\win32\x64\wcdb_api.dll"
    );
    assert_eq!(
        join(r"\\?\C:\Users\\u\", "session/session.db", TargetOs::Windows),
        r"\\?\C:\Users\u\session\session.db"
    );
    assert_eq!(join(r"\\?\C:", "a", TargetOs::Windows), r"\\?\C:\a");
    assert_eq!(join(r"\\?\UNC\srv\shr", "a/b", TargetOs::Windows), r"\\?\UNC\srv\shr\a\b");
    assert_eq!(join(r"\\?\UNC\\shr", "a", TargetOs::Windows), r"\\?\UNC\\shr\a");
    assert_eq!(join(r"\\?\C:\x/y", "a", TargetOs::Windows), r"\\?\C:\x/y\a");
}

#[test]
fn candidate_directories() {
    assert_eq!(default_db_candidates(Some("/h"), TargetOs::Linux), vec!["/h/.xwechat_files", "/h/xwechat_files"]);
    assert_eq!(default_db_candidates(Some("/h"), TargetOs::MacOs).len(), 3);
    assert!(default_db_candidates(None, TargetOs::Windows).is_empty());
    let c = wcdb_api_candidates("/rt", TargetOs::Linux);
    assert_eq!(c[0], "/rt/wcdb/linux/x64/libwcdb_api.so");
    assert_eq!(c.len(), 4);
    assert!(wcdb_dependency_paths("/rt", TargetOs::Linux).is_empty());
    assert_eq!(wcdb_dependency_paths("/rt", TargetOs::Windows).len(), 7);
    assert_eq!(wcdb_api_path("/rt", &c, &vec![false, true, true, false]).unwrap(), c[1]);
    assert_eq!(wcdb_api_path("/rt", &c, &vec![false; 4]).unwrap_err(), "wcdb_api library not found in /rt");
}

#[test]
fn session_db_search_order() {
    assert!(is_session_db_name("Session.DB"));
    assert!(!is_session_db_name("session.db-wal"));
    let mut search = SessionDbSearch::new("/root");
    assert_eq!(search.next_dir().as_deref(), Some("/root"));
    let entries = vec![
        DirEntryInfo { path: "/root/a".into(), is_dir: true, file_name: Some("a".into()) },
        DirEntryInfo { path: "/root/x.db".into(), is_dir: false, file_name: Some("x.db".into()) },
        DirEntryInfo { path: "/root/b".into(), is_dir: true, file_name: Some("b".into()) },
    ];
    assert_eq!(search.visit(&entries), None);
    assert_eq!(search.next_dir().as_deref(), Some("/root/b"));
    let found = vec![
        DirEntryInfo { path: "/root/b/c".into(), is_dir: true, file_name: Some("c".into()) },
        DirEntryInfo { path: "/root/b/SESSION.db".into(), is_dir: false, file_name: Some("SESSION.db".into()) },
        DirEntryInfo { path: "/root/b/d".into(), is_dir: true, file_name: Some("d".into()) },
    ];
    assert_eq!(search.visit(&found).as_deref(), Some("/root/b/SESSION.db"));
    assert_eq!(search.pending, vec!["/root/a".to_string(), "/root/b/c".to_string()]);
}

#[test]
fn process_ids() {
    assert_eq!(pid_from_pgrep("1234\n5678\n"), Some(1234));
    assert_eq!(pid_from_pgrep("  42 \r\n"), Some(42));
    assert_eq!(pid_from_pgrep(""), None);
    assert_eq!(pid_from_pgrep("\n12"), None);
    assert_eq!(pid_from_pgrep("x"), None);
    let csv = "\"explorer.exe\",\"100\",\"Console\"\r\n\"WeChat.exe\",\"4321\",\"Console\",\"1\",\"100 K\"\r\n";
    assert_eq!(pid_from_tasklist(csv), Some(4321));
    assert_eq!(pid_from_tasklist("WeChat.exe only\n\"WeChat.exe\",\" 77 \"\n"), None);
    assert_eq!(pid_from_tasklist("WeChat.exe only\n\"WeChat.exe\", \"77\" \n"), Some(77));
    assert_eq!(pid_from_tasklist("INFO: No tasks are running"), None);
    assert_eq!(pid_from_tasklist("\"WeChat.exe\",\"abc\"\n\"WeChat.exe\",\"5\""), None);
}

#[test]
fn decrypts_only_known_versions_with_a_key() {
    assert_eq!(dat_decrypt_key(1, Some(0x5A)), Some(0x5A));
    assert_eq!(dat_decrypt_key(2, None), None);
    assert_eq!(dat_decrypt_key(0, Some(0x5A)), None);
    assert_eq!(dat_decrypt_key(-1, Some(7)), None);
}

#[test]
fn image_keys() {
    assert_eq!(xor_key_byte(Some(0x1A5)), Some(0xA5));
    assert_eq!(xor_key_byte(None), None);
    let hex = "00112233445566778899aabbccddeeff-tail";
    assert!(aes_key_text_readable(hex, true));
    assert_eq!(
        aes_key_from_hex(hex),
        Some(vec![0x00, 0x11, 0x22, 0x33, 0x44, 0x55, 0x66, 0x77, 0x88, 0x99, 0xaa, 0xbb, 0xcc, 0xdd, 0xee, 0xff])
    );
    assert_eq!(aes_key_from_hex("00112233"), None);
    assert_eq!(aes_key_from_hex("zz112233445566778899aabbccddeeff"), None);
    assert_eq!(aes_key_from_hex("+f112233445566778899aabbccddeeff").unwrap()[0], 15);
    assert!(!aes_key_text_readable("0011223344556677889900112233445é", true));
    assert!(!aes_key_text_readable("zé11223344556677889900112233445566", false));
    assert!(aes_key_text_readable("é1122334455667788990011223344556677", false));
    assert_eq!(aes_key_from_hex("é1122334455667788990011223344556677"), None);
    assert_eq!(media_kinds("all"), (true, true));
    assert_eq!(media_kinds("voice"), (false, true));
    assert_eq!(media_kinds("video"), (false, false));
    let r = image_inline_answer("http://x/y", ".jpg", b"hello");
    assert_eq!(r.get("data"), Some(&JsonValue::Str("data:image/jpg;base64,aGVsbG8=".into())));
    assert_eq!(r.get("size"), Some(&JsonValue::Number("5".into())));
}

#[test]
fn media_export_counts_its_files() {
    let s = |t: &str| JsonValue::Str(t.to_string());
    let r = media_export_answer("/out", vec![s("a.jpg"), s("b.jpg")], vec![s("c.silk")]);
    assert_eq!(r.get("exported"), Some(&JsonValue::Number("3".into())));
    assert_eq!(r.get("files"), Some(&JsonValue::Array(vec![s("a.jpg"), s("b.jpg"), s("c.silk")])));
    let none = media_export_answer("/out", vec![], vec![]);
    assert_eq!(none.get("exported"), Some(&JsonValue::Number("0".into())));
    assert_eq!(none.get("files"), Some(&JsonValue::Array(vec![])));
    assert_eq!(media_progress_labels(false), ("images", "exporting images"));
    assert_eq!(media_progress_labels(true), ("voice", "exporting voice files"));
}
