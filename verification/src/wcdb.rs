//! Decisions around the native WCDB library: the connection's state, what
//! each answer code means, and the queries built for it. The calls into the
//! library itself are made by the caller, which hands the answers back here.

use vstd::prelude::*;
use crate::json::{JsonValue, Json, no_fields, add_field};
use crate::text::{chars_of, string_of, concat, with_code, int_text, prefix_chars};
use crate::normalize::{normalize_int64_json, normalize_text};

verus! {

/// What the caller knows of the native connection: whether the library was
/// initialised and the handle of the open account, if any.
#[derive(Clone, Copy, Debug, PartialEq, Eq, Structural)]
pub struct WcdbState {
    pub initialized: bool,
    pub handle: Option<i64>,
}

/// What the caller must do to close the connection.
#[derive(Clone, Copy, Debug, PartialEq, Eq, Structural)]
pub struct ClosePlan {
    /// Close this account handle.
    pub close_handle: Option<i64>,
    /// Shut the library down.
    pub shutdown: bool,
}

impl WcdbState {
    /// A freshly loaded library: not initialised, no account open.
    pub fn new() -> (s: WcdbState)
        ensures
            !s.initialized,
            s.handle is None,
    {
        WcdbState { initialized: false, handle: None }
    }

    /// Whether `wcdb_init` must still be called.
    pub fn needs_init(&self) -> (b: bool)
        ensures
            b == !self.initialized,
    {
        !self.initialized
    }

    /// Records the answer code of `wcdb_init`.
    pub fn after_init(&mut self, rc: i32) -> (r: Result<(), String>)
        ensures
            rc == 0 ==> r is Ok && final(self).initialized && final(self).handle == old(self).handle,
            rc != 0 ==> (r matches Err(m) && m@ == "wcdb_init failed with code "@ + int_text(
                rc as int,
            )) && *final(self) == *old(self),
    {
        if rc != 0 {
            return Err(with_code("wcdb_init failed with code ", rc as i64));
        }
        self.initialized = true;
        Ok(())
    }

    /// Records the answer of `wcdb_open_account`: its code and the handle it wrote.
    pub fn after_open(&mut self, rc: i32, handle: i64) -> (r: Result<(), String>)
        ensures
            rc == 0 && handle > 0 ==> r is Ok && final(self).handle == Some(handle)
                && final(self).initialized == old(self).initialized,
            !(rc == 0 && handle > 0) ==> (r matches Err(m) && m@ == "wcdb_open_account failed with code "@
                + int_text(rc as int)) && *final(self) == *old(self),
    {
        if rc != 0 || handle <= 0 {
            return Err(with_code("wcdb_open_account failed with code ", rc as i64));
        }
        self.handle = Some(handle);
        Ok(())
    }

    /// Closes the connection: the open handle is to be closed, and the library
    /// shut down when it was initialised; afterwards nothing is open.
    pub fn close(&mut self) -> (plan: ClosePlan)
        ensures
            plan.close_handle == old(self).handle,
            plan.shutdown == old(self).initialized,
            !final(self).initialized,
            final(self).handle is None,
    {
        let plan = ClosePlan { close_handle: self.handle, shutdown: self.initialized };
        self.handle = None;
        self.initialized = false;
        plan
    }

    /// The handle of the open account.
    pub fn require_handle(&self) -> (r: Result<i64, String>)
        ensures
            self.handle matches Some(h) ==> r == Ok::<i64, String>(h),
            self.handle is None ==> (r matches Err(m) && m@ == "WCDB is not connected"@),
    {
        match self.handle {
            Some(h) => Ok(h),
            None => Err(String::from_str("WCDB is not connected")),
        }
    }
}

/// The answer code of the library's protection setup: anything but 0 refuses the library.
pub fn init_protection_result(rc: i32) -> (r: Result<(), String>)
    ensures
        rc == 0 ==> r is Ok,
        rc != 0 ==> (r matches Err(m) && m@ == "InitProtection failed with code "@ + int_text(rc as int)),
{
    if rc != 0 {
        return Err(with_code("InitProtection failed with code ", rc as i64));
    }
    Ok(())
}

/// The error for a library function that the loaded library lacks.
pub fn not_available(name: &str) -> (m: String)
    ensures
        m@ == name@ + " is not available"@,
{
    concat(name, " is not available")
}

/// The error when the account has no session database.
pub fn session_db_missing(account_dir: &str) -> (m: String)
    ensures
        m@ == "session.db not found under "@ + account_dir@,
{
    concat("session.db not found under ", account_dir)
}

/// The outcome of a call that must answer JSON: the text to parse (with
/// long server ids quoted) when the call succeeded and wrote an answer.
pub fn json_answer_text(rc: i32, answer: Option<&str>) -> (r: Result<String, String>)
    ensures
        rc == 0 && answer is Some ==> (r matches Ok(t) && t@ == normalize_text(answer->0@)),
        !(rc == 0 && answer is Some) ==> (r matches Err(m) && m@ == "WCDB call failed with code "@
            + int_text(rc as int)),
{
    match answer {
        Some(raw) => if rc == 0 {
            Ok(normalize_int64_json(raw))
        } else {
            Err(with_code("WCDB call failed with code ", rc as i64))
        },
        None => Err(with_code("WCDB call failed with code ", rc as i64)),
    }
}

/// The error when an answer is not valid JSON; it shows the answer's first 200 characters.
pub fn json_parse_failure(raw: &str) -> (m: String)
    ensures
        m@ == "failed to parse WCDB JSON payload: "@ + (if raw@.len() <= 200 {
            raw@
        } else {
            raw@.take(200)
        }),
{
    let head = prefix_chars(raw, 200);
    concat("failed to parse WCDB JSON payload: ", head.as_str())
}

/// `{"ok": true}`
pub open spec fn ok_answer() -> Json {
    Json::Object(seq![("ok"@, Json::Bool(true))])
}

/// `{"message": message}`
pub open spec fn message_answer(message: Seq<char>) -> Json {
    Json::Object(seq![("message"@, Json::Str(message))])
}

/// The outcome of a call that answers JSON or a plain message: `message` is
/// what it wrote (empty when nothing), `parsed` its reading as JSON, if any.
pub fn json_or_message(rc: i32, message: &str, parsed: Option<JsonValue>) -> (r: Result<JsonValue, String>)
    ensures
        rc != 0 && message@.len() == 0 ==> (r matches Err(m) && m@ == "WCDB call failed with code "@
            + int_text(rc as int)),
        rc != 0 && message@.len() > 0 ==> (r matches Err(m) && m@ == message@),
        rc == 0 && message@.len() == 0 ==> (r matches Ok(v) && v@ == ok_answer()),
        rc == 0 && message@.len() > 0 ==> (r matches Ok(v) && v@ == match parsed {
            Some(p) => p@,
            None => message_answer(message@),
        }),
{
    if rc != 0 {
        if message.is_empty() {
            return Err(with_code("WCDB call failed with code ", rc as i64));
        }
        return Err(String::from_str(message));
    }
    if message.is_empty() {
        let mut f = no_fields();
        add_field(&mut f, "ok", JsonValue::Bool(true));
        return Ok(JsonValue::Object(f));
    }
    match parsed {
        Some(v) => Ok(v),
        None => {
            let mut f = no_fields();
            add_field(&mut f, "message", JsonValue::string(message));
            Ok(JsonValue::Object(f))
        },
    }
}

/// `{"installed": installed}`
pub open spec fn installed_answer(installed: bool) -> Json {
    Json::Object(seq![("installed"@, Json::Bool(installed))])
}

/// The outcome of a trigger check: its code and the flag it wrote.
/// `what` names the check in the error.
pub fn check_answer(what: &str, rc: i32, installed: i32) -> (r: Result<JsonValue, String>)
    ensures
        rc != 0 ==> (r matches Err(m) && m@ == what@ + " check failed with code "@ + int_text(
            rc as int,
        )),
        rc == 0 ==> (r matches Ok(v) && v@ == installed_answer(installed != 0)),
{
    if rc != 0 {
        let head = concat(what, " check failed with code ");
        return Err(with_code(head.as_str(), rc as i64));
    }
    let mut f = no_fields();
    add_field(&mut f, "installed", JsonValue::Bool(installed != 0));
    Ok(JsonValue::Object(f))
}

/// The outcome of the group member count: its code and the count it wrote.
pub fn member_count_answer(rc: i32, count: i32) -> (r: Result<JsonValue, String>)
    ensures
        rc != 0 ==> (r matches Err(m) && m@ == "group member count failed with code "@ + int_text(
            rc as int,
        )),
        rc == 0 ==> (r matches Ok(v) && v@ == Json::Object(
            seq![("count"@, Json::Number(int_text(count as int)))],
        )),
{
    if rc != 0 {
        return Err(with_code("group member count failed with code ", rc as i64));
    }
    let mut f = no_fields();
    add_field(&mut f, "count", JsonValue::integer(count as i64));
    Ok(JsonValue::Object(f))
}

// ------------------------------------------------------------------ queries

/// The query that reads all contacts when the library has no contact-list function.
pub fn all_contacts_query() -> (q: &'static str)
    ensures
        q@ == "SELECT * FROM contact"@,
{
    "SELECT * FROM contact"
}

/// `s` with every `'` doubled, as an SQL string literal needs.
pub open spec fn sql_escaped(s: Seq<char>) -> Seq<char>
    decreases s.len(),
{
    if s.len() == 0 {
        seq![]
    } else {
        sql_escaped(s.drop_last()) + (if s.last() == '\'' { seq!['\'', '\''] } else { seq![s.last()] })
    }
}

/// The query that reads one contact when the library has no contact function.
pub open spec fn contact_query(username: Seq<char>) -> Seq<char> {
    "SELECT * FROM contact WHERE username='"@ + sql_escaped(username) + "' LIMIT 1"@
}

/// The SQL that selects the contact `username` (its quotes doubled).
pub fn contact_query_sql(username: &str) -> (q: String)
    ensures
        q@ == contact_query(username@),
{
    let cs = chars_of(username);
    let mut out: Vec<char> = Vec::new();
    let mut i: usize = 0;
    while i < cs.len()
        invariant
            i <= cs.len(),
            out@ == sql_escaped(cs@.take(i as int)),
        decreases cs.len() - i,
    {
        assert(cs@.take(i + 1).drop_last() == cs@.take(i as int));
        if cs[i] == '\'' {
            out.push('\'');
            out.push('\'');
        } else {
            out.push(cs[i]);
        }
        i += 1;
    }
    assert(cs@.take(cs.len() as int) == cs@);
    let escaped = string_of(&out);
    let head = concat("SELECT * FROM contact WHERE username='", escaped.as_str());
    concat(head.as_str(), "' LIMIT 1")
}


proof fn lemma_sql_escaped_shape(s: Seq<char>)
    ensures
        s.len() > 0 ==> sql_escaped(s).len() > 0,
        s.len() > 0 && s.last() == '\'' ==> sql_escaped(s).len() >= 2 && sql_escaped(s).last() == '\''
            && sql_escaped(s).drop_last().drop_last() == sql_escaped(s.drop_last()),
        s.len() > 0 && s.last() != '\'' ==> sql_escaped(s).last() == s.last() && sql_escaped(
            s,
        ).drop_last() == sql_escaped(s.drop_last()),
{
    if s.len() > 0 {
        let p = sql_escaped(s.drop_last());
        if s.last() == '\'' {
            assert((p + seq!['\'', '\'']).drop_last().drop_last() == p);
        } else {
            assert((p + seq![s.last()]).drop_last() == p);
        }
    }
}

/// Escaping keeps names apart: different names give different query texts.
pub proof fn law_sql_escape_injective(a: Seq<char>, b: Seq<char>)
    requires
        sql_escaped(a) == sql_escaped(b),
    ensures
        a == b,
    decreases a.len(),
{
    lemma_sql_escaped_shape(a);
    lemma_sql_escaped_shape(b);
    if a.len() == 0 {
        assert(b.len() == 0);
    } else {
        assert(b.len() > 0);
        law_sql_escape_injective(a.drop_last(), b.drop_last());
        assert(a == a.drop_last().push(a.last()));
        assert(b == b.drop_last().push(b.last()));
    }
}

// ----------------------------------------------------------------- payloads

/// The model of a JSON array of strings.
pub open spec fn strings_json(ids: Seq<String>) -> Json {
    Json::Array(ids.map_values(|s: String| Json::Str(s@)))
}

/// `serde_json::to_string` on a list of strings: `[`, each string as a JSON
/// string literal (`"` and `\` escaped, control characters as `\b`, `\t`,
/// `\n`, `\f`, `\r` or `\u00xx`), separated by `,`, then `]`. Its documented
/// failures (a `Serialize` impl that fails, a map with non-string keys) cannot
/// arise for a list of strings, and it writes into a `Vec<u8>`, which never
/// fails; so the answer is `Ok`.
#[verifier::external_body]
fn serde_strings_text(ids: &Vec<String>) -> (r: Result<String, String>)
    ensures
        r is Ok,
        r matches Ok(t) ==> t@ == crate::json::json_text(strings_json(ids@)),
{
    match serde_json::to_string(ids) {
        Ok(t) => Ok(t),
        Err(e) => Err(e.to_string()),
    }
}

/// The JSON text of a list of session ids, as the library's functions over
/// several sessions take it.
pub fn session_ids_payload(ids: &Vec<String>) -> (r: Result<String, String>)
    ensures
        r matches Ok(t) && t@ == crate::json::json_text(strings_json(ids@)),
{
    serde_strings_text(ids)
}

} // verus!
