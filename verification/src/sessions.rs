//! Reading session identifiers out of the native session list.

use vstd::prelude::*;
use crate::json::{JsonValue, Json, get_str, json_get, items_view, lemma_items_view, json_text};
use crate::text::{chars_of, trim, trim_bounds, has_substring, str_contains};

verus! {

/// The views of a sequence of strings.
pub open spec fn texts(v: Seq<String>) -> Seq<Seq<char>> {
    v.map_values(|s: String| s@)
}

/// The members, in order of preference, whose non-blank text names a session.
pub open spec fn session_keys() -> Seq<Seq<char>> {
    seq![
        "session_id"@,
        "sessionId"@,
        "id"@,
        "username"@,
        "userName"@,
        "talker"@,
        "strUsrName"@,
    ]
}

/// The first of `keys` whose member in `v` is a string that is not blank.
pub open spec fn first_nonblank_member(v: Json, keys: Seq<Seq<char>>) -> Option<Seq<char>>
    decreases keys.len(),
{
    if keys.len() == 0 {
        None
    } else {
        match get_str(v, keys[0]) {
            Some(t) => if trim(t).len() > 0 {
                Some(t)
            } else {
                first_nonblank_member(v, keys.drop_first())
            },
            None => first_nonblank_member(v, keys.drop_first()),
        }
    }
}

/// The session id a list entry names: the entry itself when it is a string,
/// else its first non-blank id member.
pub open spec fn session_id_of(v: Json) -> Option<Seq<char>> {
    match v {
        Json::Str(s) => Some(s),
        Json::Object(_) => first_nonblank_member(v, session_keys()),
        _ => None,
    }
}

/// The session ids of the entries, in order, skipping entries that name none.
pub open spec fn session_ids(items: Seq<Json>) -> Seq<Seq<char>>
    decreases items.len(),
{
    if items.len() == 0 {
        seq![]
    } else {
        let rest = session_ids(items.drop_last());
        match session_id_of(items.last()) {
            Some(id) => rest.push(id),
            None => rest,
        }
    }
}

/// The session ids of a session list (none when it is not an array).
pub open spec fn list_session_ids(v: Json) -> Seq<Seq<char>> {
    match v {
        Json::Array(items) => session_ids(items),
        _ => seq![],
    }
}

/// The text that marks a group chat's id.
pub open spec fn group_marker() -> Seq<char> {
    "@chatroom"@
}

pub open spec fn is_group_entry(v: Json) -> bool {
    match session_id_of(v) {
        Some(id) => has_substring(id, group_marker()),
        None => false,
    }
}

/// The entries that name a group chat, in order.
pub open spec fn group_entries(items: Seq<Json>) -> Seq<Json>
    decreases items.len(),
{
    if items.len() == 0 {
        seq![]
    } else {
        let rest = group_entries(items.drop_last());
        if is_group_entry(items.last()) {
            rest.push(items.last())
        } else {
            rest
        }
    }
}

/// The group-chat entries of a session list; anything but an array is kept as it is.
pub open spec fn group_sessions(v: Json) -> Json {
    match v {
        Json::Array(items) => Json::Array(group_entries(items)),
        _ => v,
    }
}

fn nonblank_member(v: &JsonValue, key: &str) -> (r: Option<String>)
    ensures
        r matches Some(t) ==> get_str(v@, key@) == Some(t@) && trim(t@).len() > 0,
        r is None ==> !(get_str(v@, key@) matches Some(t) && trim(t).len() > 0),
{
    match v.get(key) {
        Some(x) => match x.as_str() {
            Some(t) => {
                let cs = chars_of(t.as_str());
                let (lo, hi) = trim_bounds(&cs);
                if lo < hi {
                    Some(t.clone())
                } else {
                    None
                }
            },
            None => None,
        },
        None => None,
    }
}

/// The session id that a session-list entry names.
pub fn session_id_from_value(value: &JsonValue) -> (r: Option<String>)
    ensures
        r matches Some(t) ==> session_id_of(value@) == Some(t@),
        r is None ==> session_id_of(value@) is None,
{
    if let Some(text) = value.as_str() {
        return Some(text.clone());
    }
    if value.as_object().is_none() {
        return None;
    }
    let ghost keys = session_keys();
    let ghost v = value@;
    assert(keys.drop_first().drop_first().drop_first().drop_first().drop_first().drop_first().drop_first().len() == 0);
    reveal_with_fuel(first_nonblank_member, 8);
    if let Some(t) = nonblank_member(value, "session_id") {
        return Some(t);
    }
    if let Some(t) = nonblank_member(value, "sessionId") {
        return Some(t);
    }
    if let Some(t) = nonblank_member(value, "id") {
        return Some(t);
    }
    if let Some(t) = nonblank_member(value, "username") {
        return Some(t);
    }
    if let Some(t) = nonblank_member(value, "userName") {
        return Some(t);
    }
    if let Some(t) = nonblank_member(value, "talker") {
        return Some(t);
    }
    if let Some(t) = nonblank_member(value, "strUsrName") {
        return Some(t);
    }
    None
}


/// The session ids named by a session list, in order.
pub fn extract_session_ids(value: &JsonValue) -> (r: Vec<String>)
    ensures
        texts(r@) == list_session_ids(value@),
{
    let mut out: Vec<String> = Vec::new();
    match value.as_array() {
        Some(items) => {
            proof {
                lemma_items_view(items@);
            }
            let ghost iv = items_view(items@);
            let mut i: usize = 0;
            while i < items.len()
                invariant
                    i <= items.len(),
                    iv == items_view(items@),
                    iv.len() == items.len(),
                    forall|k: int| 0 <= k < items.len() ==> #[trigger] iv[k] == items@[k]@,
                    texts(out@) == session_ids(iv.take(i as int)),
                decreases items.len() - i,
            {
                assert(iv.take(i + 1).drop_last() == iv.take(i as int));
                assert(iv.take(i + 1).last() == items@[i as int]@);
                match session_id_from_value(&items[i]) {
                    Some(id) => {
                        out.push(id);
                        assert(texts(out@) == session_ids(iv.take(i as int)).push(id@));
                    },
                    None => {},
                }
                i += 1;
            }
            assert(iv.take(items.len() as int) == iv);
        },
        None => {},
    }
    out
}

/// Keeps the entries of a session list that name a group chat; anything but
/// an array is returned as it is.
pub fn filter_group_sessions(value: JsonValue) -> (r: JsonValue)
    ensures
        r@ == group_sessions(value@),
{
    match value.as_array() {
        None => value,
        Some(items) => {
            proof {
                lemma_items_view(items@);
            }
            let ghost iv = items_view(items@);
            let marker = String::from_str("@chatroom");
            let mut out: Vec<JsonValue> = Vec::new();
            let mut i: usize = 0;
            while i < items.len()
                invariant
                    i <= items.len(),
                    iv == items_view(items@),
                    iv.len() == items.len(),
                    forall|k: int| 0 <= k < items.len() ==> #[trigger] iv[k] == items@[k]@,
                    items_view(out@) == group_entries(iv.take(i as int)),
                    marker@ == group_marker(),
                decreases items.len() - i,
            {
                assert(iv.take(i + 1).drop_last() == iv.take(i as int));
                assert(iv.take(i + 1).last() == items@[i as int]@);
                let keep = match session_id_from_value(&items[i]) {
                    Some(id) => str_contains(id.as_str(), marker.as_str()),
                    None => false,
                };
                if keep {
                    let x = items[i].duplicate();
                    proof {
                        crate::json::lemma_items_view_push(out@, x);
                    }
                    out.push(x);
                }
                i += 1;
            }
            assert(iv.take(items.len() as int) == iv);
            JsonValue::Array(out)
        },
    }
}

/// The first item whose compact JSON text contains `pat`.
pub open spec fn first_mentioning(items: Seq<Json>, pat: Seq<char>) -> Option<Json>
    decreases items.len(),
{
    if items.len() == 0 {
        None
    } else if has_substring(json_text(items[0]), pat) {
        Some(items[0])
    } else {
        first_mentioning(items.drop_first(), pat)
    }
}

/// The entry of `members.members` whose JSON text mentions `username`, or null.
pub open spec fn member_mentioning(members: Json, username: Seq<char>) -> Json {
    match json_get(members, "members"@) {
        Some(Json::Array(items)) => match first_mentioning(items, username) {
            Some(x) => x,
            None => Json::Null,
        },
        _ => Json::Null,
    }
}

/// The first item whose given text (`texts[i]` for `items[i]`) contains `pat`.
pub open spec fn first_with_text(items: Seq<Json>, texts: Seq<Seq<char>>, pat: Seq<char>) -> Option<Json>
    decreases items.len(),
{
    if items.len() == 0 || texts.len() == 0 {
        None
    } else if has_substring(texts[0], pat) {
        Some(items[0])
    } else {
        first_with_text(items.drop_first(), texts.drop_first(), pat)
    }
}

/// The entry of `members.members` whose given text mentions `username`, or null.
pub open spec fn member_with_text(members: Json, texts: Seq<Seq<char>>, username: Seq<char>) -> Json {
    match json_get(members, "members"@) {
        Some(Json::Array(items)) => match first_with_text(items, texts, username) {
            Some(x) => x,
            None => Json::Null,
        },
        _ => Json::Null,
    }
}

/// The compact JSON texts of the entries of `members.members`.
pub open spec fn member_texts(members: Json) -> Seq<Seq<char>> {
    match json_get(members, "members"@) {
        Some(Json::Array(items)) => items.map_values(|x: Json| json_text(x)),
        _ => seq![],
    }
}

/// The views of a list of strings.
pub open spec fn string_views(v: Seq<String>) -> Seq<Seq<char>> {
    v.map_values(|t: String| t@)
}

proof fn lemma_first_with_json_text(items: Seq<Json>, pat: Seq<char>)
    ensures
        first_with_text(items, items.map_values(|x: Json| json_text(x)), pat) == first_mentioning(
            items,
            pat,
        ),
    decreases items.len(),
{
    if items.len() > 0 {
        let texts = items.map_values(|x: Json| json_text(x));
        assert(texts.drop_first() == items.drop_first().map_values(|x: Json| json_text(x)));
        lemma_first_with_json_text(items.drop_first(), pat);
    }
}

proof fn lemma_member_with_json_texts(members: Json, username: Seq<char>)
    ensures
        member_with_text(members, member_texts(members), username) == member_mentioning(members, username),
{
    match json_get(members, "members"@) {
        Some(Json::Array(items)) => {
            lemma_first_with_json_text(items, username);
        },
        _ => {},
    }
}

/// The first entry of the `members` array of a group-members answer whose
/// text contains `username` (`texts[i]` is the text of entry `i`, as the
/// caller wrote it); null when there is none. When the texts are the entries'
/// compact JSON texts, that is the first entry whose JSON text contains it.
pub fn find_member(members: &JsonValue, texts: &Vec<String>, username: &str) -> (r: JsonValue)
    ensures
        r@ == member_with_text(members@, string_views(texts@), username@),
        string_views(texts@) == member_texts(members@) ==> r@ == member_mentioning(
            members@,
            username@,
        ),
{
    proof {
        lemma_member_with_json_texts(members@, username@);
    }
    let list = match members.get("members") {
        Some(x) => x,
        None => {
            return JsonValue::Null;
        },
    };
    let items = match list.as_array() {
        Some(items) => items,
        None => {
            return JsonValue::Null;
        },
    };
    proof {
        lemma_items_view(items@);
    }
    let ghost iv = items_view(items@);
    let ghost tv = string_views(texts@);
    let mut i: usize = 0;
    assert(iv.skip(0) == iv);
    assert(tv.skip(0) == tv);
    while i < items.len() && i < texts.len()
        invariant
            i <= items.len(),
            i <= texts.len(),
            iv == items_view(items@),
            iv.len() == items.len(),
            tv == string_views(texts@),
            tv.len() == texts.len(),
            forall|k: int| 0 <= k < items.len() ==> #[trigger] iv[k] == items@[k]@,
            first_with_text(iv, tv, username@) == first_with_text(
                iv.skip(i as int),
                tv.skip(i as int),
                username@,
            ),
            json_get(members@, "members"@) == Some(Json::Array(iv)),
        decreases items.len() - i,
    {
        assert(iv.skip(i as int).drop_first() == iv.skip(i + 1));
        assert(tv.skip(i as int).drop_first() == tv.skip(i + 1));
        assert(iv.skip(i as int)[0] == iv[i as int]);
        assert(tv.skip(i as int)[0] == texts@[i as int]@);
        if str_contains(texts[i].as_str(), username) {
            let r = items[i].duplicate();
            proof {
                lemma_member_with_json_texts(members@, username@);
            }
            return r;
        }
        i += 1;
    }
    JsonValue::Null
}


// --------------------------------------------------------------------- laws

proof fn lemma_group_entries_members(items: Seq<Json>)
    ensures
        forall|i: int|
            0 <= i < group_entries(items).len() ==> is_group_entry(#[trigger] group_entries(items)[i]),
        group_entries(group_entries(items)) == group_entries(items),
    decreases items.len(),
{
    if items.len() > 0 {
        lemma_group_entries_members(items.drop_last());
        let rest = group_entries(items.drop_last());
        if is_group_entry(items.last()) {
            let g = rest.push(items.last());
            assert(g.drop_last() == rest);
        }
    }
}

proof fn lemma_ids_of_groups(items: Seq<Json>)
    requires
        forall|i: int| 0 <= i < items.len() ==> is_group_entry(#[trigger] items[i]),
    ensures
        forall|i: int|
            0 <= i < session_ids(items).len() ==> has_substring(
                #[trigger] session_ids(items)[i],
                group_marker(),
            ),
    decreases items.len(),
{
    if items.len() > 0 {
        let d = items.drop_last();
        assert forall|i: int| 0 <= i < d.len() implies is_group_entry(#[trigger] d[i]) by {
            assert(d[i] == items[i]);
        }
        lemma_ids_of_groups(d);
        assert(is_group_entry(items[items.len() - 1]));
        let rest = session_ids(d);
        let ids = session_ids(items);
        assert forall|i: int| 0 <= i < ids.len() implies has_substring(#[trigger] ids[i], group_marker()) by {
            if i < rest.len() {
                assert(ids[i] == rest[i]);
            }
        }
    }
}

/// Keeping the group chats twice keeps the same entries as keeping them once.
pub proof fn law_group_filter_idempotent(v: Json)
    ensures
        group_sessions(group_sessions(v)) == group_sessions(v),
{
    if let Json::Array(items) = v {
        lemma_group_entries_members(items);
    }
}

/// Every session id read from the group-chat entries names a group chat.
pub proof fn law_group_ids_are_groups(v: Json)
    ensures
        forall|i: int|
            0 <= i < list_session_ids(group_sessions(v)).len() ==> has_substring(
                #[trigger] list_session_ids(group_sessions(v))[i],
                group_marker(),
            ),
{
    if let Json::Array(items) = v {
        lemma_group_entries_members(items);
        lemma_ids_of_groups(group_entries(items));
    }
}

} // verus!
