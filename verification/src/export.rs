//! The message export: display names of the participants, the paging through
//! a session's messages within a time range, and their chronological order.

use vstd::prelude::*;
use crate::json::{JsonValue, Json, json_get, json_str, get_str, json_i64, items_view, fields_view,
    lemma_items_view, lemma_fields_view};
use crate::text::{chars_of, parse_int, str_eq};

verus! {

// ------------------------------------------------------------- timestamps

/// The `create_time` of a message: a decimal string or an integer number;
/// 0 when it is missing or neither.
pub open spec fn create_time(m: Json) -> int {
    match json_get(m, "create_time"@) {
        Some(v) => match json_str(v) {
            Some(s) => match parse_int(s, true, i64::MIN as int, i64::MAX as int) {
                Some(n) => n,
                None => 0,
            },
            None => match json_i64(v) {
                Some(n) => n,
                None => 0,
            },
        },
        None => 0,
    }
}

/// The creation time of a message, as the export orders and filters by it.
pub fn message_create_time(m: &JsonValue) -> (t: i64)
    ensures
        t as int == create_time(m@),
{
    match m.get("create_time") {
        Some(v) => match v.as_str() {
            Some(s) => {
                let cs = chars_of(s.as_str());
                match crate::text::parse_i64(&cs) {
                    Some(n) => n,
                    None => 0,
                }
            },
            None => match v.as_i64() {
                Some(n) => n,
                None => 0,
            },
        },
        None => 0,
    }
}

// ---------------------------------------------------------- display names

/// A map from account ids to display names; each id occurs once.
///
/// The ids are text. vstd ties what a `HashMap` holds to its keys only for
/// key types it knows to hash consistently (`obeys_key_model`: integers,
/// `bool` and the like); for `String` keys that fact would have to be assumed.
/// So the map is a list of (id, name) pairs whose ids are kept distinct, and
/// its view is the map those pairs describe.
pub struct NicknameMap {
    entries: Vec<(String, String)>,
}

pub open spec fn entry_index(s: Seq<(String, String)>, k: Seq<char>) -> int {
    choose|i: int| 0 <= i < s.len() && s[i].0@ == k
}

pub open spec fn entries_map(s: Seq<(String, String)>) -> Map<Seq<char>, Seq<char>> {
    Map::new(
        |k: Seq<char>| exists|i: int| 0 <= i < s.len() && s[i].0@ == k,
        |k: Seq<char>| s[entry_index(s, k)].1@,
    )
}

pub open spec fn distinct_keys(s: Seq<(String, String)>) -> bool {
    forall|i: int, j: int| 0 <= i < s.len() && 0 <= j < s.len() && i != j ==> s[i].0@ != s[j].0@
}

impl View for NicknameMap {
    type V = Map<Seq<char>, Seq<char>>;

    closed spec fn view(&self) -> Map<Seq<char>, Seq<char>> {
        entries_map(self.entries@)
    }
}

impl NicknameMap {
    #[verifier::type_invariant]
    closed spec fn inv(self) -> bool {
        distinct_keys(self.entries@)
    }

    pub fn new() -> (m: NicknameMap)
        ensures
            m@ == Map::<Seq<char>, Seq<char>>::empty(),
    {
        let m = NicknameMap { entries: Vec::new() };
        assert(m@ == Map::<Seq<char>, Seq<char>>::empty());
        m
    }

    /// Sets the name of `id`, replacing any earlier one.
    pub fn insert(&mut self, id: String, name: String)
        ensures
            final(self)@ == old(self)@.insert(id@, name@),
    {
        proof {
            use_type_invariant(&*self);
        }
        let ghost old_entries = self.entries@;
        let mut i: usize = 0;
        while i < self.entries.len()
            invariant
                i <= self.entries.len(),
                self.entries@ == old_entries,
                old(self).entries@ == old_entries,
                distinct_keys(old_entries),
                forall|j: int| 0 <= j < i ==> old_entries[j].0@ != id@,
            decreases self.entries.len() - i,
        {
            if str_eq(self.entries[i].0.as_str(), id.as_str()) {
                let ghost k = id@;
                let ghost v = name@;
                let mut entries: Vec<(String, String)> = Vec::new();
                std::mem::swap(&mut entries, &mut self.entries);
                entries.set(i, (id, name));
                proof {
                    let s = entries@;
                    assert(distinct_keys(s));
                    assert(entries_map(s) =~= entries_map(old_entries).insert(k, v)) by {
                        assert forall|key: Seq<char>| #[trigger] entries_map(s).contains_key(key)
                            <==> entries_map(old_entries).insert(k, v).contains_key(key) by {
                            if key != k {
                                if entries_map(old_entries).contains_key(key) {
                                    let j = choose|j: int|
                                        0 <= j < old_entries.len() && old_entries[j].0@ == key;
                                    assert(s[j].0@ == key);
                                }
                                if entries_map(s).contains_key(key) {
                                    let j = choose|j: int| 0 <= j < s.len() && s[j].0@ == key;
                                    assert(old_entries[j].0@ == key);
                                }
                            } else {
                                assert(s[i as int].0@ == key);
                            }
                        }
                        assert forall|key: Seq<char>| #[trigger] entries_map(s).contains_key(key)
                            implies entries_map(s)[key] == entries_map(old_entries).insert(
                            k,
                            v,
                        )[key] by {
                            let j = entry_index(s, key);
                            if key == k {
                                assert(j == i);
                            } else {
                                let j2 = entry_index(old_entries, key);
                                assert(s[j2].0@ == key);
                                assert(j == j2);
                            }
                        }
                    }
                }
                self.entries = entries;
                return;
            }
            i += 1;
        }
        let ghost k = id@;
        let ghost v = name@;
        let mut entries: Vec<(String, String)> = Vec::new();
                std::mem::swap(&mut entries, &mut self.entries);
        entries.push((id, name));
        proof {
            let s = entries@;
            assert(distinct_keys(s));
            assert(entries_map(s) =~= entries_map(old_entries).insert(k, v)) by {
                assert forall|key: Seq<char>| #[trigger] entries_map(s).contains_key(key)
                    <==> entries_map(old_entries).insert(k, v).contains_key(key) by {
                    if entries_map(old_entries).contains_key(key) {
                        let j = choose|j: int| 0 <= j < old_entries.len() && old_entries[j].0@ == key;
                        assert(s[j].0@ == key);
                    }
                    if entries_map(s).contains_key(key) && key != k {
                        let j = choose|j: int| 0 <= j < s.len() && s[j].0@ == key;
                        assert(old_entries[j].0@ == key);
                    }
                    if key == k {
                        assert(s[old_entries.len() as int].0@ == key);
                    }
                }
                assert forall|key: Seq<char>| #[trigger] entries_map(s).contains_key(key)
                    implies entries_map(s)[key] == entries_map(old_entries).insert(k, v)[key] by {
                    let j = entry_index(s, key);
                    if key == k {
                        assert(s[old_entries.len() as int].0@ == key);
                        assert(j == old_entries.len());
                    } else {
                        let j2 = entry_index(old_entries, key);
                        assert(s[j2].0@ == key);
                        assert(j == j2);
                    }
                }
            }
        }
        self.entries = entries;
    }

    /// The (id, name) pairs, each id once.
    pub fn pairs(&self) -> (r: &Vec<(String, String)>)
        ensures
            entries_map(r@) == self@,
            distinct_keys(r@),
    {
        proof {
            use_type_invariant(self);
        }
        &self.entries
    }
}


/// The account id of a contact: its `username` member, or its `wxid` member
/// when it has no `username`; empty when that member is not a string.
pub open spec fn contact_id(c: Json) -> Seq<char> {
    let m = match json_get(c, "username"@) {
        Some(x) => Some(x),
        None => json_get(c, "wxid"@),
    };
    match m {
        Some(x) => match json_str(x) {
            Some(s) => s,
            None => seq![],
        },
        None => seq![],
    }
}

/// The member `key` when it is a non-empty string.
pub open spec fn nonempty_member(c: Json, key: Seq<char>) -> Option<Seq<char>> {
    match get_str(c, key) {
        Some(s) => if s.len() > 0 {
            Some(s)
        } else {
            None
        },
        None => None,
    }
}

/// The display name of a contact: nickname, else remark, else alias, else its id.
pub open spec fn contact_name(c: Json) -> Seq<char> {
    match nonempty_member(c, "nickName"@) {
        Some(n) => n,
        None => match nonempty_member(c, "remark"@) {
            Some(n) => n,
            None => match nonempty_member(c, "alias"@) {
                Some(n) => n,
                None => contact_id(c),
            },
        },
    }
}

/// Names from a contact list: later contacts override earlier ones; contacts
/// without an id are skipped.
pub open spec fn contacts_names(items: Seq<Json>) -> Map<Seq<char>, Seq<char>>
    decreases items.len(),
{
    if items.len() == 0 {
        Map::empty()
    } else {
        let m = contacts_names(items.drop_last());
        if contact_id(items.last()).len() > 0 {
            m.insert(contact_id(items.last()), contact_name(items.last()))
        } else {
            m
        }
    }
}

/// `m` with the non-empty group nicknames of `fields` put over it.
pub open spec fn with_group_names(m: Map<Seq<char>, Seq<char>>, fields: Seq<(Seq<char>, Json)>) -> Map<
    Seq<char>,
    Seq<char>,
>
    decreases fields.len(),
{
    if fields.len() == 0 {
        m
    } else {
        let m2 = with_group_names(m, fields.drop_last());
        match json_str(fields.last().1) {
            Some(n) => if n.len() > 0 {
                m2.insert(fields.last().0, n)
            } else {
                m2
            },
            None => m2,
        }
    }
}

/// The names the export uses: those of the contact list (when it was read
/// and is an array), overridden by the group nicknames (when they were read
/// and `nicknames` is an object).
pub open spec fn export_names(contacts: Option<Json>, group: Option<Json>) -> Map<Seq<char>, Seq<char>> {
    let base = match contacts {
        Some(Json::Array(items)) => contacts_names(items),
        _ => Map::empty(),
    };
    match group {
        Some(g) => match json_get(g, "nicknames"@) {
            Some(Json::Object(fields)) => with_group_names(base, fields),
            _ => base,
        },
        None => base,
    }
}

fn nonempty_member_exec(c: &JsonValue, key: &str) -> (r: Option<String>)
    ensures
        r matches Some(s) ==> nonempty_member(c@, key@) == Some(s@),
        r is None ==> nonempty_member(c@, key@) is None,
{
    match c.get(key) {
        Some(x) => match x.as_str() {
            Some(s) => if s.as_str().is_empty() {
                None
            } else {
                Some(s.clone())
            },
            None => None,
        },
        None => None,
    }
}

fn contact_id_exec(c: &JsonValue) -> (r: String)
    ensures
        r@ == contact_id(c@),
{
    let m = match c.get("username") {
        Some(x) => Some(x),
        None => c.get("wxid"),
    };
    match m {
        Some(x) => match x.as_str() {
            Some(s) => s.clone(),
            None => String::new(),
        },
        None => String::new(),
    }
}

/// The display names for an export: `contacts` is the contact list when it
/// could be read, `group` the group-members answer when the session is a
/// group chat and its members could be read.
pub fn build_nickname_map(contacts: Option<&JsonValue>, group: Option<&JsonValue>) -> (m: NicknameMap)
    ensures
        m@ == export_names(
            match contacts {
                Some(c) => Some(c@),
                None => None,
            },
            match group {
                Some(g) => Some(g@),
                None => None,
            },
        ),
{
    let mut map = NicknameMap::new();
    if let Some(c) = contacts {
        if let Some(items) = c.as_array() {
            proof {
                lemma_items_view(items@);
            }
            let ghost iv = items_view(items@);
            let mut i: usize = 0;
            while i < items.len()
                invariant
                    i <= items.len(),
                    iv == items_view(items@),
                    iv.len() == items.len(),
                    forall|k: int| 0 <= k < items.len() ==> #[trigger] iv[k] == items@[k]@,
                    map@ == contacts_names(iv.take(i as int)),
                decreases items.len() - i,
            {
                assert(iv.take(i + 1).drop_last() == iv.take(i as int));
                assert(iv.take(i + 1).last() == items@[i as int]@);
                let c = &items[i];
                let id = contact_id_exec(c);
                let name = match nonempty_member_exec(c, "nickName") {
                    Some(n) => n,
                    None => match nonempty_member_exec(c, "remark") {
                        Some(n) => n,
                        None => match nonempty_member_exec(c, "alias") {
                            Some(n) => n,
                            None => id.clone(),
                        },
                    },
                };
                if !id.as_str().is_empty() {
                    map.insert(id, name);
                }
                i += 1;
            }
            assert(iv.take(items.len() as int) == iv);
        }
    }
    let ghost base = map@;
    if let Some(g) = group {
        if let Some(nicks) = g.get("nicknames") {
            if let Some(fields) = nicks.as_object() {
                proof {
                    lemma_fields_view(fields@);
                }
                let ghost fv = fields_view(fields@);
                let mut i: usize = 0;
                while i < fields.len()
                    invariant
                        i <= fields.len(),
                        fv == fields_view(fields@),
                        fv.len() == fields.len(),
                        forall|k: int|
                            0 <= k < fields.len() ==> #[trigger] fv[k] == (
                                fields@[k].0@,
                                fields@[k].1@,
                            ),
                        map@ == with_group_names(base, fv.take(i as int)),
                    decreases fields.len() - i,
                {
                    assert(fv.take(i + 1).drop_last() == fv.take(i as int));
                    assert(fv.take(i + 1).last() == fv[i as int]);
                    if let Some(n) = fields[i].1.as_str() {
                        if !n.as_str().is_empty() {
                            map.insert(fields[i].0.clone(), n.clone());
                        }
                    }
                    i += 1;
                }
                assert(fv.take(fields.len() as int) == fv);
            }
        }
    }
    map
}

/// Whether the export also reads the group nicknames of the session.
pub fn wants_group_nicknames(session_id: &str) -> (b: bool)
    ensures
        b == (crate::sessions::group_marker().len() <= session_id@.len() && session_id@.skip(
            session_id@.len() - crate::sessions::group_marker().len(),
        ) == crate::sessions::group_marker()),
{
    crate::text::str_ends_with(session_id, "@chatroom")
}


// ------------------------------------------------------------------ paging

/// Messages are read from newest to oldest in pages of this size.
pub const PAGE_SIZE: i32 = 500;

/// `ts` lies in `[start, end)`, an absent bound being unbounded.
pub open spec fn in_range(ts: int, start: Option<i64>, end: Option<i64>) -> bool {
    &&& (start matches Some(s) ==> ts >= s)
    &&& (end matches Some(e) ==> ts < e)
}

/// `ts` lies before the start of the range.
pub open spec fn before_range(ts: int, start: Option<i64>) -> bool {
    start matches Some(s) && ts < s
}

/// The messages of `items` whose creation time is in the range, in order.
pub open spec fn in_range_messages(items: Seq<Json>, start: Option<i64>, end: Option<i64>) -> Seq<Json>
    decreases items.len(),
{
    if items.len() == 0 {
        seq![]
    } else {
        let rest = in_range_messages(items.drop_last(), start, end);
        if in_range(create_time(items.last()), start, end) {
            rest.push(items.last())
        } else {
            rest
        }
    }
}

/// Some message of `items` lies before the start of the range.
pub open spec fn reaches_before(items: Seq<Json>, start: Option<i64>) -> bool {
    exists|i: int| 0 <= i < items.len() && before_range(create_time(items[i]), start)
}

/// The state of reading a session's messages page by page.
pub struct MessagePager {
    pub start_ts: Option<i64>,
    pub end_ts: Option<i64>,
    /// How many messages have been read so far.
    pub offset: i32,
    /// No further page is to be read.
    pub finished: bool,
    /// The messages read so far that lie in the range, in the order read.
    pub collected: Vec<JsonValue>,
}

impl MessagePager {
    pub fn new(start_ts: Option<i64>, end_ts: Option<i64>) -> (p: MessagePager)
        ensures
            p.start_ts == start_ts,
            p.end_ts == end_ts,
            p.offset == 0,
            !p.finished,
            p.collected@.len() == 0,
    {
        MessagePager { start_ts, end_ts, offset: 0, finished: false, collected: Vec::new() }
    }

    /// The `(limit, offset)` of the next page to read, if any.
    pub fn next_request(&self) -> (r: Option<(i32, i32)>)
        ensures
            self.finished ==> r is None,
            !self.finished ==> r == Some((PAGE_SIZE, self.offset)),
    {
        if self.finished {
            None
        } else {
            Some((PAGE_SIZE, self.offset))
        }
    }

    /// Takes in one page as read: keeps its messages in the range and stops
    /// when the page is not an array, is empty, is short, or reaches a message
    /// older than the range.
    pub fn accept(&mut self, page: &JsonValue)
        requires
            !old(self).finished,
            old(self).offset >= 0,
            page@ matches Json::Array(items) ==> old(self).offset + items.len() <= i32::MAX,
        ensures
            final(self).start_ts == old(self).start_ts,
            final(self).end_ts == old(self).end_ts,
            match page@ {
                Json::Array(items) => if items.len() == 0 {
                    &&& final(self).finished
                    &&& final(self).offset == old(self).offset
                    &&& items_view(final(self).collected@) == items_view(old(self).collected@)
                } else {
                    &&& final(self).offset == old(self).offset + items.len()
                    &&& items_view(final(self).collected@) == items_view(old(self).collected@)
                        + in_range_messages(items, old(self).start_ts, old(self).end_ts)
                    &&& final(self).finished == (reaches_before(items, old(self).start_ts)
                        || items.len() < PAGE_SIZE)
                },
                _ => {
                    &&& final(self).finished
                    &&& final(self).offset == old(self).offset
                    &&& items_view(final(self).collected@) == items_view(old(self).collected@)
                },
            },
    {
        let msgs = match page.as_array() {
            Some(a) => a,
            None => {
                self.finished = true;
                return;
            },
        };
        if msgs.len() == 0 {
            self.finished = true;
            return;
        }
        proof {
            lemma_items_view(msgs@);
            assert(page@ == Json::Array(items_view(msgs@)));
            assert(items_view(msgs@).len() == msgs.len());
            assert(old(self).offset + msgs.len() <= i32::MAX);
        }
        let ghost iv = items_view(msgs@);
        let ghost start_collected = items_view(self.collected@);
        let mut reached = false;
        let mut i: usize = 0;
        while i < msgs.len()
            invariant
                i <= msgs.len(),
                iv == items_view(msgs@),
                iv.len() == msgs.len(),
                forall|k: int| 0 <= k < msgs.len() ==> #[trigger] iv[k] == msgs@[k]@,
                items_view(self.collected@) == start_collected + in_range_messages(
                    iv.take(i as int),
                    self.start_ts,
                    self.end_ts,
                ),
                reached == reaches_before(iv.take(i as int), self.start_ts),
                self.start_ts == old(self).start_ts,
                self.end_ts == old(self).end_ts,
                self.offset == old(self).offset,
                self.offset >= 0,
                !self.finished,
                self.offset + msgs.len() <= i32::MAX,
            decreases msgs.len() - i,
        {
            let ghost before = iv.take(i as int);
            assert(iv.take(i + 1).drop_last() == before);
            assert(iv.take(i + 1).last() == msgs@[i as int]@);
            let ts = message_create_time(&msgs[i]);
            let within = (match self.start_ts {
                Some(s) => ts >= s,
                None => true,
            }) && (match self.end_ts {
                Some(e) => ts < e,
                None => true,
            });
            if within {
                let x = msgs[i].duplicate();
                proof {
                    crate::json::lemma_items_view_push(self.collected@, x);
                }
                self.collected.push(x);
            }
            let early = match self.start_ts {
                Some(s) => ts < s,
                None => false,
            };
            proof {
                let now = iv.take(i + 1);
                if early {
                    assert(now[i as int] == iv[i as int]);
                }
                if reached {
                    let j = choose|j: int|
                        0 <= j < before.len() && before_range(create_time(before[j]), self.start_ts);
                    assert(now[j] == before[j]);
                }
                if reaches_before(now, self.start_ts) && !early {
                    let j = choose|j: int|
                        0 <= j < now.len() && before_range(create_time(now[j]), self.start_ts);
                    assert(j < i);
                    assert(before[j] == now[j]);
                }
            }
            if early {
                reached = true;
            }
            i += 1;
        }
        assert(iv.take(msgs.len() as int) == iv);
        self.offset = self.offset + msgs.len() as i32;
        if reached || msgs.len() < PAGE_SIZE as usize {
            self.finished = true;
        }
    }
}

// ---------------------------------------------------------------- ordering

/// Message `a` comes before message `b` in the export: earlier creation
/// time, or the same time and read earlier.
pub open spec fn key_before(keys: Seq<int>, a: int, b: int) -> bool {
    keys[a] < keys[b] || (keys[a] == keys[b] && a < b)
}

/// `p` lists the indices of `keys` in the export order.
pub open spec fn is_stable_order(keys: Seq<int>, p: Seq<int>) -> bool {
    &&& p.len() == keys.len()
    &&& forall|i: int| 0 <= i < p.len() ==> 0 <= #[trigger] p[i] < keys.len()
    &&& forall|k: int| 0 <= k < keys.len() ==> #[trigger] p.contains(k)
    &&& forall|i: int, j: int| 0 <= i < j < p.len() ==> key_before(keys, p[i], p[j])
}

pub open spec fn create_times(items: Seq<Json>) -> Seq<int> {
    Seq::new(items.len(), |i: int| create_time(items[i]))
}

/// `out` holds the messages of `items` in creation-time order, messages with
/// the same time in the order they were read (a stable sort).
pub open spec fn sorted_by_create_time(items: Seq<Json>, out: Seq<Json>) -> bool {
    exists|p: Seq<int>|
        is_stable_order(create_times(items), p) && out.len() == p.len() && forall|i: int|
            0 <= i < p.len() ==> #[trigger] out[i] == items[p[i]]
}

/// Sorts messages by creation time, keeping the read order among equal times.
pub fn sort_by_create_time(msgs: &Vec<JsonValue>) -> (out: Vec<JsonValue>)
    ensures
        sorted_by_create_time(items_view(msgs@), items_view(out@)),
{
    proof {
        lemma_items_view(msgs@);
    }
    let ghost iv = items_view(msgs@);
    let n = msgs.len();
    let mut keys: Vec<i64> = Vec::new();
    let mut i: usize = 0;
    while i < n
        invariant
            i <= n,
            n == msgs.len(),
            iv == items_view(msgs@),
            iv.len() == n,
            forall|k: int| 0 <= k < n ==> #[trigger] iv[k] == msgs@[k]@,
            keys@.len() == i,
            forall|k: int| 0 <= k < i ==> #[trigger] keys@[k] as int == create_time(iv[k]),
        decreases n - i,
    {
        keys.push(message_create_time(&msgs[i]));
        i += 1;
    }
    let ghost ks = create_times(iv);
    assert forall|k: int| 0 <= k < n implies #[trigger] keys@[k] as int == ks[k] by {}
    // insertion of each index after the indices of no later time
    let mut order: Vec<usize> = Vec::new();
    let mut i: usize = 0;
    while i < n
        invariant
            i <= n,
            n == msgs.len(),
            keys@.len() == n,
            ks.len() == n,
            forall|k: int| 0 <= k < n ==> #[trigger] keys@[k] as int == ks[k],
            order@.len() == i,
            forall|a: int| 0 <= a < i ==> (#[trigger] order@[a] as int) < i,
            forall|k: int| 0 <= k < i ==> #[trigger] order@.contains(k as usize),
            forall|a: int, b: int|
                0 <= a < b < i ==> key_before(ks, order@[a] as int, order@[b] as int),
        decreases n - i,
    {
        let mut pos: usize = 0;
        while pos < order.len() && keys[order[pos]] <= keys[i]
            invariant
                pos <= order.len(),
                order@.len() == i,
                i < n,
                keys@.len() == n,
                forall|a: int| 0 <= a < i ==> (#[trigger] order@[a] as int) < i,
                forall|a: int| 0 <= a < pos ==> keys@[#[trigger] order@[a] as int] <= keys@[i as int],
            decreases order.len() - pos,
        {
            pos += 1;
        }
        let ghost old_order = order@;
        order.insert(pos, i);
        proof {
            let o = order@;
            assert(o == old_order.insert(pos as int, i));
            assert forall|a: int, b: int| 0 <= a < b < i + 1 implies key_before(
                ks,
                o[a] as int,
                o[b] as int,
            ) by {
                if b < pos {
                    assert(o[a] == old_order[a] && o[b] == old_order[b]);
                } else if b == pos {
                    assert(o[a] == old_order[a]);
                    assert(keys@[old_order[a] as int] <= keys@[i as int]);
                } else if a == pos {
                    assert(o[b] == old_order[b - 1]);
                    if b - 1 > pos {
                        assert(key_before(ks, old_order[pos as int] as int, old_order[b - 1] as int));
                    }
                    assert(keys@[old_order[pos as int] as int] > keys@[i as int]);
                } else if a < pos {
                    assert(o[a] == old_order[a] && o[b] == old_order[b - 1]);
                } else {
                    assert(o[a] == old_order[a - 1] && o[b] == old_order[b - 1]);
                }
            }
            assert forall|k: int| 0 <= k < i + 1 implies #[trigger] o.contains(k as usize) by {
                if k == i {
                    assert(o[pos as int] == i);
                } else {
                    assert(old_order.contains(k as usize));
                    let a0 = choose|a: int| 0 <= a < i && old_order[a] == k as usize;
                    if a0 < pos {
                        assert(o[a0] == k);
                    } else {
                        assert(o[a0 + 1] == k);
                    }
                }
            }
            assert forall|a: int| 0 <= a < i + 1 implies (#[trigger] o[a] as int) < i + 1 by {
                if a < pos {
                    assert(o[a] == old_order[a]);
                } else if a > pos {
                    assert(o[a] == old_order[a - 1]);
                }
            }
        }
        i += 1;
    }
    let mut out: Vec<JsonValue> = Vec::new();
    let mut j: usize = 0;
    while j < n
        invariant
            j <= n,
            n == msgs.len(),
            order@.len() == n,
            iv == items_view(msgs@),
            iv.len() == n,
            forall|k: int| 0 <= k < n ==> #[trigger] iv[k] == msgs@[k]@,
            forall|a: int| 0 <= a < n ==> (#[trigger] order@[a] as int) < n,
            items_view(out@).len() == j,
            forall|a: int| 0 <= a < j ==> #[trigger] items_view(out@)[a] == iv[order@[a] as int],
        decreases n - j,
    {
        let x = msgs[order[j]].duplicate();
        proof {
            crate::json::lemma_items_view_push(out@, x);
        }
        out.push(x);
        j += 1;
    }
    proof {
        let p = Seq::new(n as nat, |a: int| order@[a] as int);
        assert forall|k: int| 0 <= k < n implies #[trigger] p.contains(k) by {
            assert(order@.contains(k as usize));
            let a = choose|a: int| 0 <= a < n && order@[a] == k as usize;
            assert(p[a] == k);
        }
        assert(is_stable_order(ks, p));
        assert(items_view(out@).len() == p.len());
        assert forall|a: int| 0 <= a < p.len() implies #[trigger] items_view(out@)[a] == iv[p[a]] by {}
    }
    out
}


// --------------------------------------------------------------------- laws

/// The exported messages come in nondecreasing creation time.
pub proof fn law_sorted_nondecreasing(items: Seq<Json>, out: Seq<Json>)
    requires
        sorted_by_create_time(items, out),
    ensures
        forall|i: int, j: int|
            0 <= i <= j < out.len() ==> create_time(#[trigger] out[i]) <= create_time(#[trigger] out[j]),
{
    let p = choose|p: Seq<int>|
        is_stable_order(create_times(items), p) && out.len() == p.len() && forall|i: int|
            0 <= i < p.len() ==> #[trigger] out[i] == items[p[i]];
    assert forall|i: int, j: int| 0 <= i <= j < out.len() implies create_time(#[trigger] out[i])
        <= create_time(#[trigger] out[j]) by {
        assert(out[i] == items[p[i]]);
        assert(out[j] == items[p[j]]);
        if i < j {
            assert(key_before(create_times(items), p[i], p[j]));
        }
    }
}

proof fn lemma_orders_agree_upto(keys: Seq<int>, p: Seq<int>, q: Seq<int>, n: int)
    requires
        is_stable_order(keys, p),
        is_stable_order(keys, q),
        0 <= n <= p.len(),
    ensures
        forall|j: int| 0 <= j < n ==> p[j] == q[j],
    decreases n,
{
    if n > 0 {
        lemma_orders_agree_upto(keys, p, q, n - 1);
        let i = n - 1;
        let x = p[i];
        let y = q[i];
        if x != y {
            assert(q.contains(x));
            let a = choose|a: int| 0 <= a < q.len() && q[a] == x;
            if a < i {
                assert(q[a] == p[a]);
                assert(key_before(keys, p[a], p[i]));
            }
            assert(a > i);
            assert(key_before(keys, y, x));
            assert(p.contains(y));
            let b = choose|b: int| 0 <= b < p.len() && p[b] == y;
            if b < i {
                assert(p[b] == q[b]);
                assert(key_before(keys, q[b], q[i]));
            }
            assert(b > i);
            assert(key_before(keys, x, y));
        }
    }
}

/// There is one export order: two orders of the same messages are equal.
pub proof fn law_stable_order_unique(keys: Seq<int>, p: Seq<int>, q: Seq<int>)
    requires
        is_stable_order(keys, p),
        is_stable_order(keys, q),
    ensures
        p == q,
{
    lemma_orders_agree_upto(keys, p, q, p.len() as int);
    assert(p =~= q);
}

/// Only messages of the range are collected.
pub proof fn law_collected_in_range(items: Seq<Json>, start: Option<i64>, end: Option<i64>)
    ensures
        forall|i: int|
            0 <= i < in_range_messages(items, start, end).len() ==> in_range(
                create_time(#[trigger] in_range_messages(items, start, end)[i]),
                start,
                end,
            ),
    decreases items.len(),
{
    if items.len() > 0 {
        law_collected_in_range(items.drop_last(), start, end);
        let rest = in_range_messages(items.drop_last(), start, end);
        let all = in_range_messages(items, start, end);
        assert forall|i: int| 0 <= i < all.len() implies in_range(
            create_time(#[trigger] all[i]),
            start,
            end,
        ) by {
            if i < rest.len() {
                assert(all[i] == rest[i]);
            }
        }
    }
}

/// Completeness of the pager: the messages it keeps from a page are exactly
/// those whose creation time `t` has `t >= start` when there is a start and
/// `t < end` when there is an end, in page order.
pub proof fn law_pager_keeps_every_message_in_range(items: Seq<Json>, start: Option<i64>, end: Option<i64>)
    ensures
        in_range_messages(items, start, end) == items.filter(
            |m: Json|
                (start is None || create_time(m) >= start->0) && (end is None || create_time(m)
                    < end->0),
        ),
    decreases items.len(),
{
    let pred = |m: Json|
        (start is None || create_time(m) >= start->0) && (end is None || create_time(m) < end->0);
    reveal(Seq::filter);
    if items.len() > 0 {
        law_pager_keeps_every_message_in_range(items.drop_last(), start, end);
        assert(in_range(create_time(items.last()), start, end) == pred(items.last()));
    }
}

/// Without bounds, every message of the page is kept, in page order.
pub proof fn law_unbounded_pager_keeps_page(items: Seq<Json>)
    ensures
        in_range_messages(items, None, None) == items,
    decreases items.len(),
{
    if items.len() > 0 {
        law_unbounded_pager_keeps_page(items.drop_last());
        assert(items.drop_last().push(items.last()) =~= items);
    }
}

} // verus!
