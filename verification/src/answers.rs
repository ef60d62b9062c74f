//! The answers the service operations give, built from what the native
//! library and the file system returned.

use vstd::prelude::*;
use crate::error::{AppError, ErrorKind, is_app_error};
use crate::json::{JsonValue, Json, no_fields, add_field, no_items, add_item, items_view};
use crate::text::{concat, str_eq, nat_text, int_text};
use crate::services::{AppContext, ServiceHub};

verus! {

/// `{"key": value}` members as a model object.
pub open spec fn obj1(k1: Seq<char>, v1: Json) -> Json {
    Json::Object(seq![(k1, v1)])
}

pub open spec fn obj2(k1: Seq<char>, v1: Json, k2: Seq<char>, v2: Json) -> Json {
    Json::Object(seq![(k1, v1), (k2, v2)])
}

pub open spec fn obj3(k1: Seq<char>, v1: Json, k2: Seq<char>, v2: Json, k3: Seq<char>, v3: Json) -> Json {
    Json::Object(seq![(k1, v1), (k2, v2), (k3, v3)])
}

pub open spec fn obj4(
    k1: Seq<char>,
    v1: Json,
    k2: Seq<char>,
    v2: Json,
    k3: Seq<char>,
    v3: Json,
    k4: Seq<char>,
    v4: Json,
) -> Json {
    Json::Object(seq![(k1, v1), (k2, v2), (k3, v3), (k4, v4)])
}

fn object1(k1: &str, v1: JsonValue) -> (r: JsonValue)
    ensures
        r@ == obj1(k1@, v1@),
{
    let mut f = no_fields();
    add_field(&mut f, k1, v1);
    JsonValue::Object(f)
}

fn object2(k1: &str, v1: JsonValue, k2: &str, v2: JsonValue) -> (r: JsonValue)
    ensures
        r@ == obj2(k1@, v1@, k2@, v2@),
{
    let mut f = no_fields();
    add_field(&mut f, k1, v1);
    add_field(&mut f, k2, v2);
    assert(crate::json::fields_view(f@) =~= seq![(k1@, v1@), (k2@, v2@)]);
    JsonValue::Object(f)
}

fn object3(k1: &str, v1: JsonValue, k2: &str, v2: JsonValue, k3: &str, v3: JsonValue) -> (r: JsonValue)
    ensures
        r@ == obj3(k1@, v1@, k2@, v2@, k3@, v3@),
{
    let mut f = no_fields();
    add_field(&mut f, k1, v1);
    add_field(&mut f, k2, v2);
    add_field(&mut f, k3, v3);
    assert(crate::json::fields_view(f@) =~= seq![(k1@, v1@), (k2@, v2@), (k3@, v3@)]);
    JsonValue::Object(f)
}

fn object4(
    k1: &str,
    v1: JsonValue,
    k2: &str,
    v2: JsonValue,
    k3: &str,
    v3: JsonValue,
    k4: &str,
    v4: JsonValue,
) -> (r: JsonValue)
    ensures
        r@ == obj4(k1@, v1@, k2@, v2@, k3@, v3@, k4@, v4@),
{
    let mut f = no_fields();
    add_field(&mut f, k1, v1);
    add_field(&mut f, k2, v2);
    add_field(&mut f, k3, v3);
    add_field(&mut f, k4, v4);
    assert(crate::json::fields_view(f@) =~= seq![(k1@, v1@), (k2@, v2@), (k3@, v3@), (k4@, v4@)]);
    JsonValue::Object(f)
}

/// The value of a read that may have failed: null when it did.
pub open spec fn or_null(v: Option<JsonValue>) -> Json {
    match v {
        Some(x) => x@,
        None => Json::Null,
    }
}

fn value_or_null(v: Option<JsonValue>) -> (r: JsonValue)
    ensures
        r@ == or_null(v),
{
    match v {
        Some(x) => x,
        None => JsonValue::Null,
    }
}

// ----------------------------------------------------------------- runtime

/// The runtime description: the context's paths and version, the target the
/// assets were built for and how many assets there are.
pub fn runtime_info(hub: &ServiceHub, target: &str, asset_count: usize) -> (r: JsonValue)
    ensures
        r@ == Json::Object(
            seq![
                ("homeDir"@, Json::Str(hub.spec_ctx().home_dir@)),
                ("configPath"@, Json::Str(hub.spec_ctx().config_path@)),
                ("runtimeDir"@, Json::Str(hub.spec_ctx().runtime_dir@)),
                ("version"@, Json::Str(hub.spec_ctx().version@)),
                ("target"@, Json::Str(target@)),
                ("assetCount"@, Json::Number(nat_text(asset_count as nat))),
            ],
        ),
{
    let ctx: &AppContext = hub.context();
    let mut f = no_fields();
    add_field(&mut f, "homeDir", JsonValue::text(&ctx.home_dir));
    add_field(&mut f, "configPath", JsonValue::text(&ctx.config_path));
    add_field(&mut f, "runtimeDir", JsonValue::text(&ctx.runtime_dir));
    add_field(&mut f, "version", JsonValue::text(&ctx.version));
    add_field(&mut f, "target", JsonValue::string(target));
    add_field(&mut f, "assetCount", JsonValue::count(asset_count));
    assert(crate::json::fields_view(f@) =~= seq![
        ("homeDir"@, Json::Str(ctx.home_dir@)),
        ("configPath"@, Json::Str(ctx.config_path@)),
        ("runtimeDir"@, Json::Str(ctx.runtime_dir@)),
        ("version"@, Json::Str(ctx.version@)),
        ("target"@, Json::Str(target@)),
        ("assetCount"@, Json::Number(nat_text(asset_count as nat))),
    ]);
    JsonValue::Object(f)
}

// ---------------------------------------------------------------- database

/// The candidate data directories with whether each exists.
pub open spec fn candidates_json(c: Seq<(String, bool)>) -> Seq<Json> {
    c.map_values(|e: (String, bool)| obj2("path"@, Json::Str(e.0@), "exists"@, Json::Bool(e.1)))
}

/// `{"candidates": [{"path", "exists"}...]}` for the default data directories.
pub fn db_detect_answer(candidates: &Vec<(String, bool)>) -> (r: JsonValue)
    ensures
        r@ == obj1("candidates"@, Json::Array(candidates_json(candidates@))),
{
    let mut items = no_items();
    let mut i: usize = 0;
    while i < candidates.len()
        invariant
            i <= candidates.len(),
            items_view(items@) == candidates_json(candidates@.take(i as int)),
        decreases candidates.len() - i,
    {
        assert(candidates@.take(i + 1) == candidates@.take(i as int).push(candidates@[i as int]));
        let e = object2(
            "path",
            JsonValue::text(&candidates[i].0),
            "exists",
            JsonValue::Bool(candidates[i].1),
        );
        add_item(&mut items, e);
        i += 1;
    }
    assert(candidates@.take(candidates.len() as int) == candidates@);
    object1("candidates", JsonValue::Array(items))
}

/// What was found about one entry of the scanned directory.
pub struct ScanEntry {
    /// The entry's file name.
    pub name: String,
    pub path: String,
    pub is_dir: bool,
    /// Whether `db_storage`, `FileStorage/Image` and `FileStorage/Image2` exist inside it.
    pub has_markers: (bool, bool, bool),
}

/// An entry is an account directory when it is a directory holding one of the markers.
pub open spec fn is_account_dir(e: ScanEntry) -> bool {
    e.is_dir && (e.has_markers.0 || e.has_markers.1 || e.has_markers.2)
}

/// The account directories among `entries`, as `{"wxid", "path"}` objects.
pub open spec fn accounts_json(entries: Seq<ScanEntry>) -> Seq<Json>
    decreases entries.len(),
{
    if entries.len() == 0 {
        seq![]
    } else {
        let rest = accounts_json(entries.drop_last());
        if is_account_dir(entries.last()) {
            rest.push(obj2("wxid"@, Json::Str(entries.last().name@), "path"@, Json::Str(entries.last().path@)))
        } else {
            rest
        }
    }
}

/// `{"root", "accounts"}`: the account directories found in `root`.
pub fn db_scan_answer(root: &str, entries: &Vec<ScanEntry>) -> (r: JsonValue)
    ensures
        r@ == obj2("root"@, Json::Str(root@), "accounts"@, Json::Array(accounts_json(entries@))),
{
    let mut items = no_items();
    let mut i: usize = 0;
    while i < entries.len()
        invariant
            i <= entries.len(),
            items_view(items@) == accounts_json(entries@.take(i as int)),
        decreases entries.len() - i,
    {
        assert(entries@.take(i + 1).drop_last() == entries@.take(i as int));
        let e = &entries[i];
        if e.is_dir && (e.has_markers.0 || e.has_markers.1 || e.has_markers.2) {
            add_item(&mut items, object2("wxid", JsonValue::text(&e.name), "path", JsonValue::text(&e.path)));
        }
        i += 1;
    }
    assert(entries@.take(entries.len() as int) == entries@);
    object2("root", JsonValue::string(root), "accounts", JsonValue::Array(items))
}

/// `{"accountDir", "connected": true}` after a successful connection test.
pub fn db_test_answer(account_dir: &str) -> (r: JsonValue)
    ensures
        r@ == obj2("accountDir"@, Json::Str(account_dir@), "connected"@, Json::Bool(true)),
{
    object2("accountDir", JsonValue::string(account_dir), "connected", JsonValue::Bool(true))
}


// ------------------------------------------------------------- triggers

/// What a trigger command asks for.
#[derive(Clone, Copy, Debug, PartialEq, Eq, Structural)]
pub enum TriggerAction {
    Check,
    Install,
    Uninstall,
}

pub open spec fn trigger_action_of(action: Seq<char>) -> Option<TriggerAction> {
    if action == "check"@ {
        Some(TriggerAction::Check)
    } else if action == "install"@ {
        Some(TriggerAction::Install)
    } else if action == "uninstall"@ {
        Some(TriggerAction::Uninstall)
    } else {
        None
    }
}

/// The trigger action named `check`, `install` or `uninstall`.
pub fn parse_trigger_action(action: &str) -> (r: Option<TriggerAction>)
    ensures
        r == trigger_action_of(action@),
{
    if str_eq(action, "check") {
        Some(TriggerAction::Check)
    } else if str_eq(action, "install") {
        Some(TriggerAction::Install)
    } else if str_eq(action, "uninstall") {
        Some(TriggerAction::Uninstall)
    } else {
        None
    }
}

/// The error of an unknown anti-revoke action, as each session reports it.
pub fn unknown_anti_revoke_action() -> (m: String)
    ensures
        m@ == "unknown anti revoke action"@,
{
    String::from_str("unknown anti revoke action")
}

/// The error of an unknown moments block-delete action.
pub fn unknown_sns_block_delete_action() -> (e: AppError)
    ensures
        e.kind == ErrorKind::Native,
        e.message@ == "unknown sns block-delete action"@,
{
    AppError::native("unknown sns block-delete action")
}

/// How one session's anti-revoke outcome is reported.
pub open spec fn anti_revoke_entry(session_id: Seq<char>, outcome: Result<JsonValue, String>) -> Json {
    match outcome {
        Ok(data) => obj3("sessionId"@, Json::Str(session_id), "success"@, Json::Bool(true), "data"@, data@),
        Err(e) => obj3("sessionId"@, Json::Str(session_id), "success"@, Json::Bool(false), "error"@, Json::Str(e@)),
    }
}

pub open spec fn anti_revoke_entries(sessions: Seq<String>, outcomes: Seq<Result<JsonValue, String>>) -> Seq<Json> {
    Seq::new(sessions.len(), |i: int| anti_revoke_entry(sessions[i]@, outcomes[i]))
}

/// `{"results": [...]}`: each session with its outcome, in order.
pub fn anti_revoke_answer(sessions: &Vec<String>, outcomes: Vec<Result<JsonValue, String>>) -> (r: JsonValue)
    requires
        outcomes@.len() == sessions@.len(),
    ensures
        r@ == obj1("results"@, Json::Array(anti_revoke_entries(sessions@, outcomes@))),
{
    let ghost all = outcomes@;
    let mut outcomes = outcomes;
    assert(all.skip(0) == all);
    let mut items = no_items();
    let mut i: usize = 0;
    while i < sessions.len()
        invariant
            i <= sessions.len(),
            all.len() == sessions@.len(),
            outcomes@ == all.skip(i as int),
            items_view(items@) =~= anti_revoke_entries(sessions@.take(i as int), all.take(i as int)),
        decreases sessions.len() - i,
    {
        let o = outcomes.remove(0);
        assert(o == all[i as int]);
        assert(outcomes@ == all.skip(i + 1));
        let e = match o {
            Ok(data) => object3("sessionId", JsonValue::text(&sessions[i]), "success", JsonValue::Bool(true), "data", data),
            Err(msg) => object3("sessionId", JsonValue::text(&sessions[i]), "success", JsonValue::Bool(false), "error", JsonValue::text(&msg)),
        };
        add_item(&mut items, e);
        i += 1;
    }
    assert(sessions@.take(sessions.len() as int) == sessions@);
    assert(all.take(all.len() as int) == all);
    object1("results", JsonValue::Array(items))
}

// -------------------------------------------------------------- analytics

/// `{"messageCounts", "contactTypeCounts"}`
pub fn analytics_rankings_answer(message_counts: JsonValue, contact_counts: JsonValue) -> (r: JsonValue)
    ensures
        r@ == obj2("messageCounts"@, message_counts@, "contactTypeCounts"@, contact_counts@),
{
    object2("messageCounts", message_counts, "contactTypeCounts", contact_counts)
}

// ------------------------------------------------------------------ groups

/// `{"chatroomId", "members", "nicknames", "count"}`; nicknames and count are
/// null when they could not be read.
pub fn group_members_answer(
    chatroom_id: &str,
    members: JsonValue,
    nicknames: Option<JsonValue>,
    count: Option<JsonValue>,
) -> (r: JsonValue)
    ensures
        r@ == obj4(
            "chatroomId"@,
            Json::Str(chatroom_id@),
            "members"@,
            members@,
            "nicknames"@,
            or_null(nicknames),
            "count"@,
            or_null(count),
        ),
{
    object4(
        "chatroomId",
        JsonValue::string(chatroom_id),
        "members",
        members,
        "nicknames",
        value_or_null(nicknames),
        "count",
        value_or_null(count),
    )
}

/// `{"chatroomId", "view", "stats"}`
pub fn group_stats_answer(chatroom_id: &str, view: &str, stats: JsonValue) -> (r: JsonValue)
    ensures
        r@ == obj3("chatroomId"@, Json::Str(chatroom_id@), "view"@, Json::Str(view@), "stats"@, stats@),
{
    object3("chatroomId", JsonValue::string(chatroom_id), "view", JsonValue::string(view), "stats", stats)
}

/// `{"chatroomId", "username", "member"}`: the member entry of a group-members
/// answer whose JSON text mentions the user, or null.
pub fn group_member_answer(chatroom_id: &str, username: &str, members: &JsonValue, texts: &Vec<String>) -> (r:
    JsonValue)
    ensures
        r@ == obj3(
            "chatroomId"@,
            Json::Str(chatroom_id@),
            "username"@,
            Json::Str(username@),
            "member"@,
            crate::sessions::member_with_text(members@, crate::sessions::string_views(texts@), username@),
        ),
        crate::sessions::string_views(texts@) == crate::sessions::member_texts(members@) ==> r@ == obj3(
            "chatroomId"@,
            Json::Str(chatroom_id@),
            "username"@,
            Json::Str(username@),
            "member"@,
            crate::sessions::member_mentioning(members@, username@),
        ),
{
    let m = crate::sessions::find_member(members, texts, username);
    object3("chatroomId", JsonValue::string(chatroom_id), "username", JsonValue::string(username), "member", m)
}

// ------------------------------------------------------- footprints, moments

/// The account id or the empty string.
pub open spec fn wxid_or_empty(w: Option<String>) -> Seq<char> {
    match w {
        Some(x) => x@,
        None => seq![],
    }
}

fn wxid_text(w: &Option<String>) -> (r: JsonValue)
    ensures
        r@ == Json::Str(wxid_or_empty(*w)),
        w is Some ==> r@ == Json::Str(w->0@),
{
    match w {
        Some(x) => {
            JsonValue::text(x)
        },
        None => JsonValue::Str(String::new()),
    }
}

/// The footprint options sent to the library, members in key order:
/// `{"beginTimestamp": 0, "endTimestamp": 0, "myWxid"}`.
pub fn footprint_options(hub: &ServiceHub) -> (r: Result<JsonValue, AppError>)
    ensures
        hub.spec_profile() is None ==> is_app_error(r, ErrorKind::Config, "profile not found: "@ + hub.spec_profile_name()),
        hub.spec_profile() matches Some(p) ==> (r matches Ok(v) && v@ == obj3(
            "beginTimestamp"@,
            Json::Number(int_text(0)),
            "endTimestamp"@,
            Json::Number(int_text(0)),
            "myWxid"@,
            Json::Str(wxid_or_empty(
                match hub.spec_wxid_override() {
                    Some(x) => Some(x),
                    None => p.wxid,
                },
            )),
        )),
{
    let profile = hub.profile()?;
    let w = hub.my_wxid()?;
    let id = wxid_text(&w);
    proof {
        assert(wxid_or_empty(w) == wxid_or_empty(match hub.spec_wxid_override() {
            Some(x) => Some(x),
            None => profile.wxid,
        }));
    }
    Ok(object3("beginTimestamp", JsonValue::integer(0), "endTimestamp", JsonValue::integer(0), "myWxid", id))
}

/// The options of the insight footprint: `{"myWxid", "type": "insight_footprint"}`.
pub fn insight_footprint_options(hub: &ServiceHub) -> (r: Result<JsonValue, AppError>)
    ensures
        hub.spec_profile() is None ==> is_app_error(r, ErrorKind::Config, "profile not found: "@ + hub.spec_profile_name()),
        hub.spec_profile() matches Some(p) ==> (r matches Ok(v) && v@ == obj2(
            "myWxid"@,
            Json::Str(wxid_or_empty(
                match hub.spec_wxid_override() {
                    Some(x) => Some(x),
                    None => p.wxid,
                },
            )),
            "type"@,
            Json::Str("insight_footprint"@),
        )),
{
    let profile = hub.profile()?;
    let w = hub.my_wxid()?;
    let id = wxid_text(&w);
    proof {
        assert(wxid_or_empty(w) == wxid_or_empty(match hub.spec_wxid_override() {
            Some(x) => Some(x),
            None => profile.wxid,
        }));
    }
    Ok(object2("myWxid", id, "type", JsonValue::string("insight_footprint")))
}

/// `{"export", "annual"}`; the annual statistics are null when they could not be read.
pub fn sns_stats_answer(export: JsonValue, annual: Option<JsonValue>) -> (r: JsonValue)
    ensures
        r@ == obj2("export"@, export@, "annual"@, or_null(annual)),
{
    object2("export", export, "annual", value_or_null(annual))
}


// ---------------------------------------------------------------- insights

/// The name shown for a session: the contact's `nickname` (or `alias` when it
/// has no `nickname` member) when that is a string, else the session id.
pub open spec fn display_name(contact: Option<Json>, session_id: Seq<char>) -> Seq<char> {
    match contact {
        Some(v) => {
            let m = match crate::json::json_get(v, "nickname"@) {
                Some(x) => Some(x),
                None => crate::json::json_get(v, "alias"@),
            };
            match m {
                Some(x) => match crate::json::json_str(x) {
                    Some(s) => s,
                    None => session_id,
                },
                None => session_id,
            }
        },
        None => session_id,
    }
}

/// The display name of a session from its contact record, when it could be read.
pub fn display_name_for(contact: Option<&JsonValue>, session_id: &str) -> (r: String)
    ensures
        r@ == display_name(
            match contact {
                Some(c) => Some(c@),
                None => None,
            },
            session_id@,
        ),
{
    if let Some(v) = contact {
        let m = match v.get("nickname") {
            Some(x) => Some(x),
            None => v.get("alias"),
        };
        if let Some(x) = m {
            if let Some(s) = x.as_str() {
                return s.clone();
            }
        }
    }
    String::from_str(session_id)
}

/// The id of an insight record made at `millis` since the epoch.
pub fn insight_record_id(millis: u128) -> (r: String)
    ensures
        r@ == "insight_"@ + nat_text(millis as nat),
{
    let digits = crate::text::string_of(&crate::text::format_u128(millis));
    concat("insight_", digits.as_str())
}

/// The trigger reason of an insight asked for by the user.
pub fn manual_trigger_reason() -> (r: &'static str)
    ensures
        r@ == "manual"@,
{
    "manual"
}

/// A stored insight.
#[derive(Clone, Debug)]
pub struct InsightRecord {
    pub id: String,
    pub created_at: i64,
    pub session_id: String,
    pub display_name: String,
    pub trigger_reason: String,
    pub insight: String,
    pub read: bool,
}

/// The record stored for an insight asked for by the user: its id from the
/// time in milliseconds, the session, the display name, the insight, the
/// reason `manual`, and not yet read.
pub fn manual_insight_record(
    millis: u128,
    created_at: i64,
    session_id: &str,
    display_name: &str,
    insight: &str,
) -> (r: InsightRecord)
    ensures
        r.id@ == "insight_"@ + nat_text(millis as nat),
        r.created_at == created_at,
        r.session_id@ == session_id@,
        r.display_name@ == display_name@,
        r.trigger_reason@ == "manual"@,
        r.insight@ == insight@,
        !r.read,
{
    InsightRecord {
        id: insight_record_id(millis),
        created_at,
        session_id: String::from_str(session_id),
        display_name: String::from_str(display_name),
        trigger_reason: String::from_str(manual_trigger_reason()),
        insight: String::from_str(insight),
        read: false,
    }
}

/// `{"sessionId", "insight"}`
pub fn insight_trigger_answer(session_id: &str, insight: &str) -> (r: JsonValue)
    ensures
        r@ == obj2("sessionId"@, Json::Str(session_id@), "insight"@, Json::Str(insight@)),
{
    object2("sessionId", JsonValue::string(session_id), "insight", JsonValue::string(insight))
}

/// The error for an insight id that the store does not hold.
pub fn insight_not_found(id: &str) -> (e: AppError)
    ensures
        e.kind == ErrorKind::Runtime,
        e.message@ == "insight record not found: "@ + id@,
{
    AppError { kind: ErrorKind::Runtime, message: concat("insight record not found: ", id) }
}

/// `{"records"}`
pub fn insight_records_answer(records: JsonValue) -> (r: JsonValue)
    ensures
        r@ == obj1("records"@, records@),
{
    object1("records", records)
}

/// `{"id", "read": true}`
pub fn insight_mark_read_answer(id: &str) -> (r: JsonValue)
    ensures
        r@ == obj2("id"@, Json::Str(id@), "read"@, Json::Bool(true)),
{
    object2("id", JsonValue::string(id), "read", JsonValue::Bool(true))
}

/// `{"cleared": true}`
pub fn insight_clear_answer() -> (r: JsonValue)
    ensures
        r@ == obj1("cleared"@, Json::Bool(true)),
{
    object1("cleared", JsonValue::Bool(true))
}

// -------------------------------------------------------------------- keys

/// The error when no WeChat process is running.
pub fn wechat_not_running() -> (e: AppError)
    ensures
        e.kind == ErrorKind::Runtime,
        e.message@ == "WeChat process not found; please launch WeChat first"@,
{
    AppError::runtime("WeChat process not found; please launch WeChat first")
}

/// The error when the key library is missing on a platform without the key helper.
pub fn key_library_missing() -> (e: AppError)
    ensures
        e.kind == ErrorKind::Native,
        e.message@ == "wx_key library not found; key extraction requires the platform-specific native library"@,
{
    AppError::native("wx_key library not found; key extraction requires the platform-specific native library")
}

/// `{"key", "method": "wx_key", "pid"}`
pub fn key_db_answer(key: &str, pid: u32) -> (r: JsonValue)
    ensures
        r@ == obj3("key"@, Json::Str(key@), "method"@, Json::Str("wx_key"@), "pid"@, Json::Number(nat_text(pid as nat))),
{
    object3("key", JsonValue::string(key), "method", JsonValue::string("wx_key"), "pid", JsonValue::count(pid as usize))
}

/// `{"key", "method": "key_helper"}`: the helper's output without surrounding whitespace.
pub fn key_helper_answer(output: &str) -> (r: JsonValue)
    ensures
        r@ == obj2("key"@, Json::Str(crate::text::trim(output@)), "method"@, Json::Str("key_helper"@)),
{
    let cs = crate::text::chars_of(output);
    let (lo, hi) = crate::text::trim_bounds(&cs);
    let mut t: Vec<char> = Vec::new();
    let mut i = lo;
    while i < hi
        invariant
            lo <= i <= hi,
            hi <= cs.len(),
            t@ == cs@.subrange(lo as int, i as int),
        decreases hi - i,
    {
        t.push(cs[i]);
        assert(cs@.subrange(lo as int, i + 1) == cs@.subrange(lo as int, i as int).push(cs@[i as int]));
        i += 1;
    }
    let key = crate::text::string_of(&t);
    object2("key", JsonValue::text(&key), "method", JsonValue::string("key_helper"))
}

/// A helper's answer: the JSON it printed, or `{"raw": text}` when it is not JSON.
pub open spec fn parsed_or_raw(raw: Seq<char>, parsed: Option<JsonValue>) -> Json {
    match parsed {
        Some(p) => p@,
        None => obj1("raw"@, Json::Str(raw)),
    }
}

fn parsed_or_raw_value(raw: &str, parsed: Option<JsonValue>) -> (r: JsonValue)
    ensures
        r@ == parsed_or_raw(raw@, parsed),
{
    match parsed {
        Some(p) => p,
        None => object1("raw", JsonValue::string(raw)),
    }
}

/// `{"imageKey", "method": "wx_key"}` from the key library's answer (`parsed`
/// is its reading as JSON, if any).
pub fn key_image_answer(raw: &str, parsed: Option<JsonValue>) -> (r: JsonValue)
    ensures
        r@ == obj2("imageKey"@, parsed_or_raw(raw@, parsed), "method"@, Json::Str("wx_key"@)),
{
    object2("imageKey", parsed_or_raw_value(raw, parsed), "method", JsonValue::string("wx_key"))
}

/// The image key from the stored configuration, when the key library is missing.
pub fn key_image_from_config(profile: &crate::services::ProfileConfig) -> (r: Result<JsonValue, AppError>)
    ensures
        profile.image_xor_key matches Some(x) ==> (r matches Ok(v) && v@ == obj3(
            "imageKey"@,
            obj1("xorKey"@, Json::Number(int_text(x as int))),
            "method"@,
            Json::Str("config"@),
            "note"@,
            Json::Str("from stored config; use key scan-image for live extraction"@),
        )),
        profile.image_xor_key is None ==> is_app_error(
            r,
            ErrorKind::Native,
            "image key not available; configure image_xor_key or use wx_key native library"@,
        ),
{
    match profile.image_xor_key {
        Some(x) => Ok(object3(
            "imageKey",
            object1("xorKey", JsonValue::integer(x)),
            "method",
            JsonValue::string("config"),
            "note",
            JsonValue::string("from stored config; use key scan-image for live extraction"),
        )),
        None => Err(AppError::native("image key not available; configure image_xor_key or use wx_key native library")),
    }
}

/// `{"result", "method": "image_scan_helper", "userDir"}` from the scan helper's output.
pub fn key_scan_helper_answer(raw: &str, parsed: Option<JsonValue>, user_dir: &str) -> (r: JsonValue)
    ensures
        r@ == obj3("result"@, parsed_or_raw(raw@, parsed), "method"@, Json::Str("image_scan_helper"@), "userDir"@, Json::Str(user_dir@)),
{
    object3("result", parsed_or_raw_value(raw, parsed), "method", JsonValue::string("image_scan_helper"), "userDir", JsonValue::string(user_dir))
}

/// `{"result", "method": "wx_key"}` with the key library's answer text.
pub fn key_scan_library_answer(result: &str) -> (r: JsonValue)
    ensures
        r@ == obj2("result"@, Json::Str(result@), "method"@, Json::Str("wx_key"@)),
{
    object2("result", JsonValue::string(result), "method", JsonValue::string("wx_key"))
}

/// The error when image keys cannot be scanned on this platform.
pub fn key_scan_unavailable() -> (e: AppError)
    ensures
        e.kind == ErrorKind::Native,
        e.message@ == "image key scanning requires platform-specific native library"@,
{
    AppError::native("image key scanning requires platform-specific native library")
}


// ------------------------------------------------------- exports, backups

/// `{"out", "count", "session"}` after a message export.
pub fn messages_export_answer(out: &str, count: usize, session_id: &str) -> (r: JsonValue)
    ensures
        r@ == obj3("out"@, Json::Str(out@), "count"@, Json::Number(nat_text(count as nat)), "session"@, Json::Str(session_id@)),
{
    object3("out", JsonValue::string(out), "count", JsonValue::count(count), "session", JsonValue::string(session_id))
}

/// A downloaded emoji that was already cached.
pub open spec fn is_cached(v: Json) -> bool {
    crate::json::json_get(v, "cached"@) == Some(Json::Bool(true))
}

/// How many of the results were not already cached.
pub open spec fn fresh_count(items: Seq<Json>) -> nat
    decreases items.len(),
{
    if items.len() == 0 {
        0
    } else {
        fresh_count(items.drop_last()) + if is_cached(items.last()) { 0nat } else { 1nat }
    }
}

/// `{"found": 0, "downloaded": 0}` when the session has no emojis.
pub fn emoji_none_answer() -> (r: JsonValue)
    ensures
        r@ == obj2("found"@, Json::Number(nat_text(0)), "downloaded"@, Json::Number(nat_text(0))),
{
    object2("found", JsonValue::count(0), "downloaded", JsonValue::count(0))
}

/// `{"found", "downloaded", "files"}`: how many emojis the messages name, how
/// many of the results were newly downloaded, and the results.
pub fn emoji_answer(found: usize, results: Vec<JsonValue>) -> (r: JsonValue)
    ensures
        r@ == obj3(
            "found"@,
            Json::Number(nat_text(found as nat)),
            "downloaded"@,
            Json::Number(nat_text(fresh_count(items_view(results@)))),
            "files"@,
            Json::Array(items_view(results@)),
        ),
{
    proof {
        crate::json::lemma_items_view(results@);
    }
    let ghost iv = items_view(results@);
    let mut n: usize = 0;
    let mut i: usize = 0;
    while i < results.len()
        invariant
            i <= results.len(),
            iv == items_view(results@),
            iv.len() == results.len(),
            forall|k: int| 0 <= k < results.len() ==> #[trigger] iv[k] == results@[k]@,
            n == fresh_count(iv.take(i as int)),
            n <= i,
        decreases results.len() - i,
    {
        assert(iv.take(i + 1).drop_last() == iv.take(i as int));
        assert(iv.take(i + 1).last() == results@[i as int]@);
        let cached = match results[i].get("cached") {
            Some(JsonValue::Bool(b)) => *b,
            _ => false,
        };
        if !cached {
            n += 1;
        }
        i += 1;
    }
    assert(iv.take(results.len() as int) == iv);
    object3("found", JsonValue::count(found), "downloaded", JsonValue::count(n), "files", JsonValue::Array(results))
}

/// `{"out", "entries", "wxid", "createdAt"}` after a backup.
pub fn backup_create_answer(out: &str, entries: usize, wxid: JsonValue, created_at: JsonValue) -> (r: JsonValue)
    ensures
        r@ == obj4(
            "out"@,
            Json::Str(out@),
            "entries"@,
            Json::Number(nat_text(entries as nat)),
            "wxid"@,
            wxid@,
            "createdAt"@,
            created_at@,
        ),
{
    object4("out", JsonValue::string(out), "entries", JsonValue::count(entries), "wxid", wxid, "createdAt", created_at)
}

/// `{"restoredTo"}` after a restore.
pub fn backup_restore_answer(target_dir: &str) -> (r: JsonValue)
    ensures
        r@ == obj1("restoredTo"@, Json::Str(target_dir@)),
{
    object1("restoredTo", JsonValue::string(target_dir))
}

// ---------------------------------------------------- official accounts

/// The official account whose messages are payment records.
pub fn pay_records_account() -> (r: &'static str)
    ensures
        r@ == "gh_3dfda90e39d6"@,
{
    "gh_3dfda90e39d6"
}

/// `{"accounts"}`
pub fn biz_accounts_answer(accounts: JsonValue) -> (r: JsonValue)
    ensures
        r@ == obj1("accounts"@, accounts@),
{
    object1("accounts", accounts)
}

/// `{"username", "messages"}`
pub fn biz_messages_answer(username: &str, messages: JsonValue) -> (r: JsonValue)
    ensures
        r@ == obj2("username"@, Json::Str(username@), "messages"@, messages@),
{
    object2("username", JsonValue::string(username), "messages", messages)
}

/// `{"records"}`
pub fn biz_pay_records_answer(records: JsonValue) -> (r: JsonValue)
    ensures
        r@ == obj1("records"@, records@),
{
    object1("records", records)
}

/// Each action word names the action of the same name, and no other text
/// names an action.
pub proof fn law_trigger_action_words(action: Seq<char>)
    ensures
        (trigger_action_of(action) == Some(TriggerAction::Check)) == (action == "check"@),
        (trigger_action_of(action) == Some(TriggerAction::Install)) == (action == "install"@),
        (trigger_action_of(action) == Some(TriggerAction::Uninstall)) == (action == "uninstall"@),
        trigger_action_of(action) is None == (action != "check"@ && action != "install"@ && action
            != "uninstall"@),
{
    reveal_strlit("check");
    reveal_strlit("install");
    reveal_strlit("uninstall");
    assert("check"@ != "install"@) by {
        assert("check"@[0] != "install"@[0]);
    }
    assert("check"@ != "uninstall"@) by {
        assert("check"@[0] != "uninstall"@[0]);
    }
    assert("install"@ != "uninstall"@) by {
        assert("install"@.len() != "uninstall"@.len());
    }
}

/// A scanned entry is listed as an account exactly when it is a directory
/// holding `db_storage`, `FileStorage/Image` or `FileStorage/Image2`, in scan
/// order, with its name and path.
pub proof fn law_scan_lists_marked_directories(entries: Seq<ScanEntry>)
    ensures
        accounts_json(entries) == entries.filter(
            |e: ScanEntry| e.is_dir && (e.has_markers.0 || e.has_markers.1 || e.has_markers.2),
        ).map_values(
            |e: ScanEntry| obj2("wxid"@, Json::Str(e.name@), "path"@, Json::Str(e.path@)),
        ),
    decreases entries.len(),
{
    let pred = |e: ScanEntry| e.is_dir && (e.has_markers.0 || e.has_markers.1 || e.has_markers.2);
    let f = |e: ScanEntry| obj2("wxid"@, Json::Str(e.name@), "path"@, Json::Str(e.path@));
    reveal(Seq::filter);
    if entries.len() > 0 {
        law_scan_lists_marked_directories(entries.drop_last());
        let sub = entries.drop_last().filter(pred);
        if pred(entries.last()) {
            assert(sub.push(entries.last()).map_values(f) =~= sub.map_values(f).push(f(entries.last())));
        }
    }
}

} // verus!
