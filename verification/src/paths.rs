//! Where the service looks for WeChat data and for the native libraries.

use vstd::prelude::*;
use crate::text::{chars_of, string_of, concat};
use crate::sessions::texts;

verus! {

/// The operating system the service was built for.
#[derive(Clone, Copy, Debug, PartialEq, Eq, Structural)]
pub enum TargetOs {
    MacOs,
    Linux,
    Windows,
    Other,
}

/// ASCII letters and digits.
pub open spec fn is_alnum(c: char) -> bool {
    ('a' <= c <= 'z') || ('A' <= c <= 'Z') || ('0' <= c <= '9')
}

/// The characters of the relative paths the service joins.
pub open spec fn plain_char(c: char) -> bool {
    is_alnum(c) || c == ' ' || c == '_' || c == '-' || c == '.' || c == '/'
}

/// A plain relative path: not empty, no root, no drive or other prefix, no
/// `\`, and every `.` followed by a letter or digit (so no `.` or `..`
/// component).
pub open spec fn plain_relative(rel: Seq<char>) -> bool {
    &&& rel.len() > 0
    &&& rel[0] != '/'
    &&& forall|i: int|
        0 <= i < rel.len() ==> plain_char(#[trigger] rel[i]) && (rel[i] == '.' ==> i + 1 < rel.len()
            && is_alnum(rel[i + 1]))
}

/// A path that is a drive and nothing else, such as `C:`.
pub open spec fn drive_only(base: Seq<char>) -> bool {
    &&& base.len() == 2
    &&& base[1] == ':'
    &&& (('a' <= base[0] <= 'z') || ('A' <= base[0] <= 'Z'))
}

/// A path with a verbatim prefix `\\?\`.
pub open spec fn is_verbatim(base: Seq<char>) -> bool {
    base.len() >= 4 && base[0] == '\\' && base[1] == '\\' && base[2] == '?' && base[3] == '\\'
}

/// The index of the first `\` in `s` (its length when there is none).
pub open spec fn backslash_index(s: Seq<char>) -> nat
    decreases s.len(),
{
    if s.len() == 0 || s[0] == '\\' {
        0
    } else {
        1 + backslash_index(s.drop_first())
    }
}

/// The length of the verbatim prefix of `base`: `\\?\UNC\server\share`
/// (the share only when it is not empty), or `\\?\` and the text up to the next `\`.
pub open spec fn verbatim_prefix_len(base: Seq<char>) -> int {
    let r = base.skip(4);
    if r.len() >= 4 && r[0] == 'U' && r[1] == 'N' && r[2] == 'C' && r[3] == '\\' {
        let r2 = r.skip(4);
        let server = backslash_index(r2) as int;
        if server < r2.len() {
            let share = backslash_index(r2.skip(server + 1)) as int;
            if share > 0 { 8 + server + 1 + share } else { 8 + server }
        } else {
            8 + server
        }
    } else {
        4 + backslash_index(r) as int
    }
}

/// A separator between components: `\` always, `/` too outside verbatim paths.
pub open spec fn is_path_sep(c: char, verbatim: bool) -> bool {
    c == '\\' || (!verbatim && c == '/')
}

/// Each component of `s` (each maximal run of characters other than
/// separators), preceded by `\`; `in_run` tells whether `s` continues a
/// component already written.
pub open spec fn sep_components(s: Seq<char>, verbatim: bool, in_run: bool) -> Seq<char>
    decreases s.len(),
{
    if s.len() == 0 {
        seq![]
    } else if is_path_sep(s[0], verbatim) {
        sep_components(s.drop_first(), verbatim, false)
    } else if in_run {
        seq![s[0]] + sep_components(s.drop_first(), verbatim, true)
    } else {
        seq!['\\', s[0]] + sep_components(s.drop_first(), verbatim, true)
    }
}

/// `base` joined with `rel` as `Path::join` does it on `os`.
/// - Unix: an absolute `rel` replaces `base`; otherwise `/` goes between
///   them unless `base` is empty or ends with `/`.
/// - Windows (for a plain relative `rel`): a verbatim `base` is rebuilt from
///   its prefix and the components of `base` and `rel`, each after `\`;
///   otherwise `\` goes between them unless `base` is empty, ends with `\` or
///   `/`, or is a drive alone such as `C:`.
pub open spec fn join_path(base: Seq<char>, rel: Seq<char>, os: TargetOs) -> Seq<char> {
    if os == TargetOs::Windows {
        if is_verbatim(base) {
            let p = verbatim_prefix_len(base);
            base.take(p) + sep_components(base.skip(p), true, false) + sep_components(rel, false, false)
        } else if base.len() == 0 {
            rel
        } else if base.last() == '\\' || base.last() == '/' || drive_only(base) {
            base + rel
        } else {
            base + seq!['\\'] + rel
        }
    } else {
        if rel.len() > 0 && rel[0] == '/' {
            rel
        } else if base.len() == 0 || base.last() == '/' {
            base + rel
        } else {
            base + seq!['/'] + rel
        }
    }
}

proof fn lemma_backslash_index_bound(s: Seq<char>)
    ensures
        backslash_index(s) <= s.len(),
        backslash_index(s) < s.len() ==> s[backslash_index(s) as int] == '\\',
        forall|j: int| 0 <= j < backslash_index(s) ==> #[trigger] s[j] != '\\',
    decreases s.len(),
{
    if s.len() > 0 && s[0] != '\\' {
        lemma_backslash_index_bound(s.drop_first());
        assert forall|j: int| 0 <= j < backslash_index(s) implies #[trigger] s[j] != '\\' by {
            if j > 0 {
                assert(s[j] == s.drop_first()[j - 1]);
            }
        }
    }
}

/// The index of the first `\` in `cs` at or after `from`.
fn backslash_from(cs: &Vec<char>, from: usize) -> (j: usize)
    requires
        from <= cs.len(),
    ensures
        j == from + backslash_index(cs@.skip(from as int)),
{
    let mut i = from;
    assert(cs@.skip(from as int) == cs@.skip(from as int));
    while i < cs.len() && cs[i] != '\\'
        invariant
            from <= i <= cs.len(),
            backslash_index(cs@.skip(from as int)) == (i - from) + backslash_index(cs@.skip(i as int)),
        decreases cs.len() - i,
    {
        assert(cs@.skip(i as int).drop_first() == cs@.skip(i + 1));
        i += 1;
    }
    i
}

proof fn lemma_verbatim_prefix_bound(base: Seq<char>)
    requires
        is_verbatim(base),
    ensures
        4 <= verbatim_prefix_len(base) <= base.len(),
{
    let r = base.skip(4);
    lemma_backslash_index_bound(r);
    if r.len() >= 4 && r[0] == 'U' && r[1] == 'N' && r[2] == 'C' && r[3] == '\\' {
        let r2 = r.skip(4);
        lemma_backslash_index_bound(r2);
        let server = backslash_index(r2) as int;
        if server < r2.len() {
            lemma_backslash_index_bound(r2.skip(server + 1));
        }
    }
}

/// The verbatim prefix length of `cs` (which starts with `\\?\`).
fn verbatim_prefix_end(cs: &Vec<char>) -> (p: usize)
    requires
        is_verbatim(cs@),
    ensures
        p == verbatim_prefix_len(cs@),
        p <= cs.len(),
{
    proof {
        lemma_verbatim_prefix_bound(cs@);
    }
    let n = cs.len();
    if n >= 8 && cs[4] == 'U' && cs[5] == 'N' && cs[6] == 'C' && cs[7] == '\\' {
        assert(cs@.skip(4).skip(4) == cs@.skip(8));
        let server_end = backslash_from(cs, 8);
        if server_end < n {
            assert(cs@.skip(8).skip(server_end - 8 + 1) == cs@.skip(server_end + 1));
            let share_end = backslash_from(cs, server_end + 1);
            if share_end > server_end + 1 {
                share_end
            } else {
                server_end
            }
        } else {
            server_end
        }
    } else {
        backslash_from(cs, 4)
    }
}

/// Appends the components of `cs[from..]`, each after `\`.
fn push_components(out: &mut Vec<char>, cs: &Vec<char>, from: usize, verbatim: bool)
    requires
        from <= cs.len(),
    ensures
        final(out)@ == old(out)@ + sep_components(cs@.skip(from as int), verbatim, false),
{
    let mut i = from;
    let mut in_run = false;
    let ghost start = out@;
    while i < cs.len()
        invariant
            from <= i <= cs.len(),
            start + sep_components(cs@.skip(from as int), verbatim, false) == out@ + sep_components(
                cs@.skip(i as int),
                verbatim,
                in_run,
            ),
        decreases cs.len() - i,
    {
        let c = cs[i];
        assert(cs@.skip(i as int).drop_first() == cs@.skip(i + 1));
        assert(cs@.skip(i as int)[0] == c);
        if c == '\\' || (!verbatim && c == '/') {
            in_run = false;
        } else {
            if !in_run {
                out.push('\\');
            }
            out.push(c);
            in_run = true;
        }
        i += 1;
    }
    assert(cs@.skip(i as int).len() == 0);
}

/// Joins `rel` onto `base` as `Path::join` does on `os`.
pub fn join(base: &str, rel: &str, os: TargetOs) -> (r: String)
    requires
        os == TargetOs::Windows ==> plain_relative(rel@),
    ensures
        r@ == join_path(base@, rel@, os),
{
    let b = chars_of(base);
    let rc = chars_of(rel);
    if os == TargetOs::Windows {
        if b.len() >= 4 && b[0] == '\\' && b[1] == '\\' && b[2] == '?' && b[3] == '\\' {
            let p = verbatim_prefix_end(&b);
            let mut out: Vec<char> = Vec::new();
            let mut i: usize = 0;
            while i < p
                invariant
                    i <= p <= b.len(),
                    out@ == b@.take(i as int),
                decreases p - i,
            {
                out.push(b[i]);
                assert(b@.take(i + 1) == b@.take(i as int).push(b@[i as int]));
                i += 1;
            }
            push_components(&mut out, &b, p, true);
            push_components(&mut out, &rc, 0, false);
            assert(rc@.skip(0) == rc@);
            return string_of(&out);
        }
        if b.len() == 0 {
            return String::from_str(rel);
        }
        let last = b[b.len() - 1];
        let drive = b.len() == 2 && b[1] == ':' && (('a' <= b[0] && b[0] <= 'z') || ('A' <= b[0]
            && b[0] <= 'Z'));
        if last == '\\' || last == '/' || drive {
            return concat(base, rel);
        }
        proof {
            reveal_strlit("\\");
        }
        let with_sep = concat(base, "\\");
        concat(with_sep.as_str(), rel)
    } else {
        if rc.len() > 0 && rc[0] == '/' {
            return String::from_str(rel);
        }
        if b.len() == 0 || b[b.len() - 1] == '/' {
            return concat(base, rel);
        }
        proof {
            reveal_strlit("/");
        }
        let with_sep = concat(base, "/");
        concat(with_sep.as_str(), rel)
    }
}

/// Each of `rels` joined onto `base`, in order.
pub open spec fn joined_all(base: Seq<char>, rels: Seq<Seq<char>>, os: TargetOs) -> Seq<Seq<char>> {
    rels.map_values(|r: Seq<char>| join_path(base, r, os))
}

pub open spec fn str_views(v: Seq<&str>) -> Seq<Seq<char>> {
    v.map_values(|s: &str| s@)
}

/// Every path of `rels` is plain relative, when joining for Windows.
pub open spec fn all_plain(rels: Seq<Seq<char>>, os: TargetOs) -> bool {
    os == TargetOs::Windows ==> forall|k: int| 0 <= k < rels.len() ==> plain_relative(#[trigger] rels[k])
}

fn join_each(base: &str, rels: &Vec<&str>, os: TargetOs) -> (r: Vec<String>)
    requires
        all_plain(str_views(rels@), os),
    ensures
        texts(r@) == joined_all(base@, str_views(rels@), os),
{
    let mut out: Vec<String> = Vec::new();
    let mut i: usize = 0;
    while i < rels.len()
        invariant
            i <= rels.len(),
            texts(out@) == joined_all(base@, str_views(rels@.take(i as int)), os),
            all_plain(str_views(rels@), os),
        decreases rels.len() - i,
    {
        assert(str_views(rels@)[i as int] == rels@[i as int]@);
        let p = join(base, rels[i], os);
        proof {
            assert(rels@.take(i + 1) == rels@.take(i as int).push(rels@[i as int]));
            assert(texts(out@.push(p)) == texts(out@).push(p@));
            assert(str_views(rels@.take(i + 1)) == str_views(rels@.take(i as int)).push(
                rels@[i as int]@,
            ));
        }
        out.push(p);
        i += 1;
    }
    assert(rels@.take(rels.len() as int) == rels@);
    out
}

/// Data directories WeChat uses under the home directory.
pub open spec fn db_candidate_dirs(os: TargetOs) -> Seq<Seq<char>> {
    if os == TargetOs::MacOs {
        seq![
            "Library/Containers/com.tencent.xinWeChat/Data/Library/Application Support/com.tencent.xinWeChat"@,
            "Library/Application Support/com.tencent.xinWeChat"@,
            "Library/Containers/com.tencent.WeChat/Data/Library/Application Support/com.tencent.WeChat"@,
        ]
    } else if os == TargetOs::Windows {
        seq!["Documents/WeChat Files"@, "Documents/xwechat_files"@]
    } else {
        seq![".xwechat_files"@, "xwechat_files"@]
    }
}

/// The directories where WeChat keeps its databases by default, under the
/// user's home directory (none when it is unknown).
pub fn default_db_candidates(home: Option<&str>, os: TargetOs) -> (r: Vec<String>)
    ensures
        home is None ==> r@.len() == 0,
        home matches Some(h) ==> texts(r@) == joined_all(h@, db_candidate_dirs(os), os),
{
    match home {
        None => Vec::new(),
        Some(h) => {
            let rels: Vec<&str> = if os == TargetOs::MacOs {
                vec![
                    "Library/Containers/com.tencent.xinWeChat/Data/Library/Application Support/com.tencent.xinWeChat",
                    "Library/Application Support/com.tencent.xinWeChat",
                    "Library/Containers/com.tencent.WeChat/Data/Library/Application Support/com.tencent.WeChat",
                ]
            } else if os == TargetOs::Windows {
                vec!["Documents/WeChat Files", "Documents/xwechat_files"]
            } else {
                vec![".xwechat_files", "xwechat_files"]
            };
            assert(str_views(rels@) == db_candidate_dirs(os));
            proof {
                lemma_windows_paths_plain();
            }
    proof {
        lemma_windows_paths_plain();
    }
            join_each(h, &rels, os)
        },
    }
}

/// Where the WCDB API library may lie under the runtime directory, in the order tried.
pub open spec fn wcdb_api_dirs(os: TargetOs) -> Seq<Seq<char>> {
    if os == TargetOs::MacOs {
        seq![
            "wcdb/macos/universal/libwcdb_api.dylib"@,
            "wcdb/macos/libwcdb_api.dylib"@,
            "libwcdb_api.dylib"@,
        ]
    } else if os == TargetOs::Linux {
        seq![
            "wcdb/linux/x64/libwcdb_api.so"@,
            "wcdb/linux/arm64/libwcdb_api.so"@,
            "wcdb/linux/libwcdb_api.so"@,
            "libwcdb_api.so"@,
        ]
    } else {
        seq!["wcdb/win32/x64/wcdb_api.dll"@, "wcdb/win32/arm64/wcdb_api.dll"@, "wcdb_api.dll"@]
    }
}

/// The candidate paths of the WCDB API library, in the order tried.
pub fn wcdb_api_candidates(runtime_dir: &str, os: TargetOs) -> (r: Vec<String>)
    ensures
        texts(r@) == joined_all(runtime_dir@, wcdb_api_dirs(os), os),
{
    let rels: Vec<&str> = if os == TargetOs::MacOs {
        vec![
            "wcdb/macos/universal/libwcdb_api.dylib",
            "wcdb/macos/libwcdb_api.dylib",
            "libwcdb_api.dylib",
        ]
    } else if os == TargetOs::Linux {
        vec![
            "wcdb/linux/x64/libwcdb_api.so",
            "wcdb/linux/arm64/libwcdb_api.so",
            "wcdb/linux/libwcdb_api.so",
            "libwcdb_api.so",
        ]
    } else {
        vec!["wcdb/win32/x64/wcdb_api.dll", "wcdb/win32/arm64/wcdb_api.dll", "wcdb_api.dll"]
    };
    assert(str_views(rels@) == wcdb_api_dirs(os));
    proof {
        lemma_windows_paths_plain();
    }
    join_each(runtime_dir, &rels, os)
}

/// Libraries to load before the WCDB API library, in order.
pub open spec fn wcdb_dependency_dirs(os: TargetOs) -> Seq<Seq<char>> {
    if os == TargetOs::MacOs {
        seq!["wcdb/macos/universal/libWCDB.dylib"@]
    } else if os == TargetOs::Windows {
        seq![
            "runtime/win32/msvcp140.dll"@,
            "runtime/win32/msvcp140_1.dll"@,
            "runtime/win32/vcruntime140.dll"@,
            "runtime/win32/vcruntime140_1.dll"@,
            "wcdb/win32/x64/SDL2.dll"@,
            "wcdb/win32/x64/WCDB.dll"@,
            "wcdb/win32/arm64/WCDB.dll"@,
        ]
    } else {
        seq![]
    }
}

/// The paths of the libraries WCDB depends on, to be loaded first when present.
pub fn wcdb_dependency_paths(runtime_dir: &str, os: TargetOs) -> (r: Vec<String>)
    ensures
        texts(r@) == joined_all(runtime_dir@, wcdb_dependency_dirs(os), os),
{
    let rels: Vec<&str> = if os == TargetOs::MacOs {
        vec!["wcdb/macos/universal/libWCDB.dylib"]
    } else if os == TargetOs::Windows {
        vec![
            "runtime/win32/msvcp140.dll",
            "runtime/win32/msvcp140_1.dll",
            "runtime/win32/vcruntime140.dll",
            "runtime/win32/vcruntime140_1.dll",
            "wcdb/win32/x64/SDL2.dll",
            "wcdb/win32/x64/WCDB.dll",
            "wcdb/win32/arm64/WCDB.dll",
        ]
    } else {
        Vec::new()
    };
    assert(str_views(rels@) == wcdb_dependency_dirs(os));
    proof {
        lemma_windows_paths_plain();
    }
    join_each(runtime_dir, &rels, os)
}

/// The index of the first `true` in `flags`.
pub open spec fn first_true(flags: Seq<bool>) -> Option<int>
    decreases flags.len(),
{
    if flags.len() == 0 {
        None
    } else if flags[0] {
        Some(0)
    } else {
        match first_true(flags.drop_first()) {
            Some(i) => Some(i + 1),
            None => None,
        }
    }
}

/// The WCDB API library: the first candidate that exists (`exists[i]` tells
/// whether `candidates[i]` does), or an error naming the runtime directory.
pub fn wcdb_api_path(runtime_dir: &str, candidates: &Vec<String>, exists: &Vec<bool>) -> (r: Result<
    String,
    String,
>)
    requires
        exists@.len() == candidates@.len(),
    ensures
        first_true(exists@) matches Some(i) ==> (r matches Ok(p) && p@ == candidates@[i]@),
        first_true(exists@) is None ==> (r matches Err(m) && m@
            == "wcdb_api library not found in "@ + runtime_dir@),
{
    let mut i: usize = 0;
    assert(exists@.skip(0) == exists@);
    while i < candidates.len()
        invariant
            i <= candidates.len(),
            exists@.len() == candidates@.len(),
            first_true(exists@) == (match first_true(exists@.skip(i as int)) {
                Some(j) => Some(j + i),
                None => None,
            }),
        decreases candidates.len() - i,
    {
        assert(exists@.skip(i as int).drop_first() == exists@.skip(i + 1));
        if exists[i] {
            return Ok(candidates[i].clone());
        }
        i += 1;
    }
    Err(concat("wcdb_api library not found in ", runtime_dir))
}


// ------------------------------------------------------- session database

/// ASCII lower case of a character; other characters unchanged.
pub open spec fn ascii_lower(c: char) -> char {
    if 'A' <= c <= 'Z' { ((c as u32) + 32) as char } else { c }
}

/// `a` and `b` are equal when ASCII letters are compared without case.
pub open spec fn eq_ignore_ascii_case(a: Seq<char>, b: Seq<char>) -> bool {
    a.len() == b.len() && forall|i: int| 0 <= i < a.len() ==> ascii_lower(#[trigger] a[i]) == ascii_lower(b[i])
}

fn ascii_lower_char(c: char) -> (r: char)
    ensures
        r == ascii_lower(c),
{
    if 'A' <= c && c <= 'Z' {
        ((c as u32) + 32) as u8 as char
    } else {
        c
    }
}

/// Whether a file name is `session.db`, ignoring ASCII case.
pub fn is_session_db_name(name: &str) -> (b: bool)
    ensures
        b == eq_ignore_ascii_case(name@, "session.db"@),
{
    let a = chars_of(name);
    let t = chars_of("session.db");
    if a.len() != t.len() {
        return false;
    }
    let mut i: usize = 0;
    while i < a.len()
        invariant
            i <= a.len(),
            a.len() == t.len(),
            a@ == name@,
            t@ == "session.db"@,
            forall|j: int| 0 <= j < i ==> ascii_lower(#[trigger] a@[j]) == ascii_lower(t@[j]),
        decreases a.len() - i,
    {
        if ascii_lower_char(a[i]) != ascii_lower_char(t[i]) {
            assert(ascii_lower(a@[i as int]) != ascii_lower(t@[i as int]));
            return false;
        }
        i += 1;
    }
    true
}

/// What the caller read of one directory entry.
pub struct DirEntryInfo {
    pub path: String,
    pub is_dir: bool,
    /// The file name, when it is valid UTF-8.
    pub file_name: Option<String>,
}

pub open spec fn is_session_db_entry(e: DirEntryInfo) -> bool {
    !e.is_dir && (e.file_name matches Some(n) && eq_ignore_ascii_case(n@, "session.db"@))
}

/// The index of the first session database file among `entries`.
pub open spec fn first_session_db(entries: Seq<DirEntryInfo>) -> Option<int>
    decreases entries.len(),
{
    if entries.len() == 0 {
        None
    } else if is_session_db_entry(entries[0]) {
        Some(0)
    } else {
        match first_session_db(entries.drop_first()) {
            Some(i) => Some(i + 1),
            None => None,
        }
    }
}

/// The paths of the directories among `entries`, in order.
pub open spec fn dir_paths(entries: Seq<DirEntryInfo>) -> Seq<Seq<char>>
    decreases entries.len(),
{
    if entries.len() == 0 {
        seq![]
    } else if entries.last().is_dir {
        dir_paths(entries.drop_last()).push(entries.last().path@)
    } else {
        dir_paths(entries.drop_last())
    }
}

/// The depth-first search for the session database below a directory.
pub struct SessionDbSearch {
    /// Directories still to read; the last one is read next.
    pub pending: Vec<String>,
}

impl SessionDbSearch {
    /// The search below `root` (after its `session/session.db` was not found).
    pub fn new(root: &str) -> (s: SessionDbSearch)
        ensures
            texts(s.pending@) == seq![root@],
    {
        let mut pending: Vec<String> = Vec::new();
        pending.push(String::from_str(root));
        assert(texts(pending@) == seq![root@]);
        SessionDbSearch { pending }
    }

    /// The next directory to read, taken off the pending list.
    pub fn next_dir(&mut self) -> (r: Option<String>)
        ensures
            old(self).pending@.len() == 0 ==> r is None && final(self).pending@ == old(
                self,
            ).pending@,
            old(self).pending@.len() > 0 ==> (r matches Some(d) && d@ == old(self).pending@.last()@)
                && final(self).pending@ == old(self).pending@.drop_last(),
    {
        self.pending.pop()
    }

    /// Takes in the entries of the directory just read: the first session
    /// database file among them is the answer; the directories before it are
    /// queued (all of them when there is no such file).
    pub fn visit(&mut self, entries: &Vec<DirEntryInfo>) -> (r: Option<String>)
        ensures
            first_session_db(entries@) matches Some(k) ==> (r matches Some(p) && p@ == entries@[k].path@)
                && texts(final(self).pending@) == texts(old(self).pending@) + dir_paths(
                entries@.take(k),
            ),
            first_session_db(entries@) is None ==> r is None && texts(final(self).pending@) == texts(
                old(self).pending@,
            ) + dir_paths(entries@),
    {
        let mut i: usize = 0;
        assert(entries@.skip(0) == entries@);
        assert(entries@.take(0) == Seq::<DirEntryInfo>::empty());
        while i < entries.len()
            invariant
                i <= entries.len(),
                texts(self.pending@) == texts(old(self).pending@) + dir_paths(entries@.take(i as int)),
                first_session_db(entries@) == (match first_session_db(entries@.skip(i as int)) {
                    Some(j) => Some(j + i),
                    None => None,
                }),
            decreases entries.len() - i,
        {
            let e = &entries[i];
            assert(entries@.skip(i as int).drop_first() == entries@.skip(i + 1));
            assert(entries@.skip(i as int)[0] == entries@[i as int]);
            assert(entries@.take(i + 1).drop_last() == entries@.take(i as int));
            if e.is_dir {
                let p = e.path.clone();
                proof {
                    assert(texts(self.pending@.push(p)) == texts(self.pending@).push(p@));
                }
                self.pending.push(p);
            } else {
                let found = match &e.file_name {
                    Some(n) => is_session_db_name(n.as_str()),
                    None => false,
                };
                if found {
                    return Some(e.path.clone());
                }
            }
            i += 1;
        }
        assert(entries@.take(entries.len() as int) == entries@);
        None
    }
}

/// The relative paths joined for Windows are plain.
proof fn lemma_windows_paths_plain()
    ensures
        all_plain(db_candidate_dirs(TargetOs::Windows), TargetOs::Windows),
        all_plain(wcdb_api_dirs(TargetOs::Windows), TargetOs::Windows),
        all_plain(wcdb_dependency_dirs(TargetOs::Windows), TargetOs::Windows),
        plain_relative("session/session.db"@),
        plain_relative("db_storage"@),
        plain_relative("FileStorage/Image"@),
        plain_relative("FileStorage/Image2"@),
{
    reveal_strlit("Documents/WeChat Files");
    reveal_strlit("Documents/xwechat_files");
    reveal_strlit("wcdb/win32/x64/wcdb_api.dll");
    reveal_strlit("wcdb/win32/arm64/wcdb_api.dll");
    reveal_strlit("wcdb_api.dll");
    reveal_strlit("runtime/win32/msvcp140.dll");
    reveal_strlit("runtime/win32/msvcp140_1.dll");
    reveal_strlit("runtime/win32/vcruntime140.dll");
    reveal_strlit("runtime/win32/vcruntime140_1.dll");
    reveal_strlit("wcdb/win32/x64/SDL2.dll");
    reveal_strlit("wcdb/win32/x64/WCDB.dll");
    reveal_strlit("wcdb/win32/arm64/WCDB.dll");
    reveal_strlit("session/session.db");
    reveal_strlit("db_storage");
    reveal_strlit("FileStorage/Image");
    reveal_strlit("FileStorage/Image2");
    assert(plain_relative("Documents/WeChat Files"@));
    assert(plain_relative("Documents/xwechat_files"@));
    assert(plain_relative("wcdb/win32/x64/wcdb_api.dll"@));
    assert(plain_relative("wcdb/win32/arm64/wcdb_api.dll"@));
    assert(plain_relative("wcdb_api.dll"@));
    assert(plain_relative("runtime/win32/msvcp140.dll"@));
    assert(plain_relative("runtime/win32/msvcp140_1.dll"@));
    assert(plain_relative("runtime/win32/vcruntime140.dll"@));
    assert(plain_relative("runtime/win32/vcruntime140_1.dll"@));
    assert(plain_relative("wcdb/win32/x64/SDL2.dll"@));
    assert(plain_relative("wcdb/win32/x64/WCDB.dll"@));
    assert(plain_relative("wcdb/win32/arm64/WCDB.dll"@));
    assert(plain_relative("session/session.db"@));
    assert(plain_relative("db_storage"@));
    assert(plain_relative("FileStorage/Image"@));
    assert(plain_relative("FileStorage/Image2"@));
}

/// The usual place of the session database below the account's `db_storage`.
pub fn direct_session_db(db_storage: &str, os: TargetOs) -> (p: String)
    ensures
        p@ == join_path(db_storage@, "session/session.db"@, os),
{
    proof {
        lemma_windows_paths_plain();
    }
    join(db_storage, "session/session.db", os)
}

/// The entries whose presence marks an account directory, in the order checked.
pub fn account_markers(dir: &str, os: TargetOs) -> (r: (String, String, String))
    ensures
        r.0@ == join_path(dir@, "db_storage"@, os),
        r.1@ == join_path(dir@, "FileStorage/Image"@, os),
        r.2@ == join_path(dir@, "FileStorage/Image2"@, os),
{
    proof {
        lemma_windows_paths_plain();
    }
    (join(dir, "db_storage", os), join(dir, "FileStorage/Image", os), join(dir, "FileStorage/Image2", os))
}

/// The account's database directory.
pub fn db_storage_dir(account_dir: &str, os: TargetOs) -> (p: String)
    ensures
        p@ == join_path(account_dir@, "db_storage"@, os),
{
    proof {
        lemma_windows_paths_plain();
    }
    join(account_dir, "db_storage", os)
}

/// The default data directories are, under the home directory: on Windows
/// `Documents/WeChat Files` then `Documents/xwechat_files`; on macOS the
/// three WeChat containers; elsewhere `.xwechat_files` then `xwechat_files`.
pub proof fn law_db_candidates_listed(home: Seq<char>)
    ensures
        joined_all(home, db_candidate_dirs(TargetOs::Windows), TargetOs::Windows) == seq![
            join_path(home, "Documents/WeChat Files"@, TargetOs::Windows),
            join_path(home, "Documents/xwechat_files"@, TargetOs::Windows),
        ],
        joined_all(home, db_candidate_dirs(TargetOs::MacOs), TargetOs::MacOs) == seq![
            join_path(
                home,
                "Library/Containers/com.tencent.xinWeChat/Data/Library/Application Support/com.tencent.xinWeChat"@,
                TargetOs::MacOs,
            ),
            join_path(home, "Library/Application Support/com.tencent.xinWeChat"@, TargetOs::MacOs),
            join_path(
                home,
                "Library/Containers/com.tencent.WeChat/Data/Library/Application Support/com.tencent.WeChat"@,
                TargetOs::MacOs,
            ),
        ],
        joined_all(home, db_candidate_dirs(TargetOs::Linux), TargetOs::Linux) == seq![
            join_path(home, ".xwechat_files"@, TargetOs::Linux),
            join_path(home, "xwechat_files"@, TargetOs::Linux),
        ],
        joined_all(home, db_candidate_dirs(TargetOs::Other), TargetOs::Other) == seq![
            join_path(home, ".xwechat_files"@, TargetOs::Other),
            join_path(home, "xwechat_files"@, TargetOs::Other),
        ],
{
    assert(joined_all(home, db_candidate_dirs(TargetOs::Windows), TargetOs::Windows) =~= seq![
        join_path(home, "Documents/WeChat Files"@, TargetOs::Windows),
        join_path(home, "Documents/xwechat_files"@, TargetOs::Windows),
    ]);
    assert(joined_all(home, db_candidate_dirs(TargetOs::MacOs), TargetOs::MacOs) =~= seq![
        join_path(
            home,
            "Library/Containers/com.tencent.xinWeChat/Data/Library/Application Support/com.tencent.xinWeChat"@,
            TargetOs::MacOs,
        ),
        join_path(home, "Library/Application Support/com.tencent.xinWeChat"@, TargetOs::MacOs),
        join_path(
            home,
            "Library/Containers/com.tencent.WeChat/Data/Library/Application Support/com.tencent.WeChat"@,
            TargetOs::MacOs,
        ),
    ]);
    assert(joined_all(home, db_candidate_dirs(TargetOs::Linux), TargetOs::Linux) =~= seq![
        join_path(home, ".xwechat_files"@, TargetOs::Linux),
        join_path(home, "xwechat_files"@, TargetOs::Linux),
    ]);
    assert(joined_all(home, db_candidate_dirs(TargetOs::Other), TargetOs::Other) =~= seq![
        join_path(home, ".xwechat_files"@, TargetOs::Other),
        join_path(home, "xwechat_files"@, TargetOs::Other),
    ]);
}

/// The WCDB API library is looked for under the runtime directory in this
/// order: on Windows (and any system other than macOS and Linux) the x64
/// build, then the arm64 build, then the top level; on macOS the universal
/// build, the macOS directory, the top level; on Linux x64, arm64, the Linux
/// directory, the top level.
pub proof fn law_wcdb_api_search_order(rt: Seq<char>)
    ensures
        joined_all(rt, wcdb_api_dirs(TargetOs::Windows), TargetOs::Windows) == seq![
            join_path(rt, "wcdb/win32/x64/wcdb_api.dll"@, TargetOs::Windows),
            join_path(rt, "wcdb/win32/arm64/wcdb_api.dll"@, TargetOs::Windows),
            join_path(rt, "wcdb_api.dll"@, TargetOs::Windows),
        ],
        joined_all(rt, wcdb_api_dirs(TargetOs::Other), TargetOs::Other) == seq![
            join_path(rt, "wcdb/win32/x64/wcdb_api.dll"@, TargetOs::Other),
            join_path(rt, "wcdb/win32/arm64/wcdb_api.dll"@, TargetOs::Other),
            join_path(rt, "wcdb_api.dll"@, TargetOs::Other),
        ],
        joined_all(rt, wcdb_api_dirs(TargetOs::MacOs), TargetOs::MacOs) == seq![
            join_path(rt, "wcdb/macos/universal/libwcdb_api.dylib"@, TargetOs::MacOs),
            join_path(rt, "wcdb/macos/libwcdb_api.dylib"@, TargetOs::MacOs),
            join_path(rt, "libwcdb_api.dylib"@, TargetOs::MacOs),
        ],
        joined_all(rt, wcdb_api_dirs(TargetOs::Linux), TargetOs::Linux) == seq![
            join_path(rt, "wcdb/linux/x64/libwcdb_api.so"@, TargetOs::Linux),
            join_path(rt, "wcdb/linux/arm64/libwcdb_api.so"@, TargetOs::Linux),
            join_path(rt, "wcdb/linux/libwcdb_api.so"@, TargetOs::Linux),
            join_path(rt, "libwcdb_api.so"@, TargetOs::Linux),
        ],
{
    assert(joined_all(rt, wcdb_api_dirs(TargetOs::Windows), TargetOs::Windows) =~= seq![
        join_path(rt, "wcdb/win32/x64/wcdb_api.dll"@, TargetOs::Windows),
        join_path(rt, "wcdb/win32/arm64/wcdb_api.dll"@, TargetOs::Windows),
        join_path(rt, "wcdb_api.dll"@, TargetOs::Windows),
    ]);
    assert(joined_all(rt, wcdb_api_dirs(TargetOs::Other), TargetOs::Other) =~= seq![
        join_path(rt, "wcdb/win32/x64/wcdb_api.dll"@, TargetOs::Other),
        join_path(rt, "wcdb/win32/arm64/wcdb_api.dll"@, TargetOs::Other),
        join_path(rt, "wcdb_api.dll"@, TargetOs::Other),
    ]);
    assert(joined_all(rt, wcdb_api_dirs(TargetOs::MacOs), TargetOs::MacOs) =~= seq![
        join_path(rt, "wcdb/macos/universal/libwcdb_api.dylib"@, TargetOs::MacOs),
        join_path(rt, "wcdb/macos/libwcdb_api.dylib"@, TargetOs::MacOs),
        join_path(rt, "libwcdb_api.dylib"@, TargetOs::MacOs),
    ]);
    assert(joined_all(rt, wcdb_api_dirs(TargetOs::Linux), TargetOs::Linux) =~= seq![
        join_path(rt, "wcdb/linux/x64/libwcdb_api.so"@, TargetOs::Linux),
        join_path(rt, "wcdb/linux/arm64/libwcdb_api.so"@, TargetOs::Linux),
        join_path(rt, "wcdb/linux/libwcdb_api.so"@, TargetOs::Linux),
        join_path(rt, "libwcdb_api.so"@, TargetOs::Linux),
    ]);
}

} // verus!
