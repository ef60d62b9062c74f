//! Reading the WeChat process id out of the process-listing tools' output.

use vstd::prelude::*;
use crate::text::{chars_of, trim, trim_bounds, parse_int, parse_u32, has_substring, contains_chars};

verus! {

/// Index of the first `c` in `s`; `s.len()` when there is none.
pub open spec fn index_of(s: Seq<char>, c: char) -> int
    decreases s.len(),
{
    if s.len() == 0 {
        0
    } else if s[0] == c {
        0
    } else {
        1 + index_of(s.drop_first(), c)
    }
}

pub proof fn lemma_index_of(s: Seq<char>, c: char)
    ensures
        0 <= index_of(s, c) <= s.len(),
        index_of(s, c) < s.len() ==> s[index_of(s, c)] == c,
        forall|j: int| 0 <= j < index_of(s, c) ==> s[j] != c,
    decreases s.len(),
{
    if s.len() > 0 && s[0] != c {
        lemma_index_of(s.drop_first(), c);
        assert forall|j: int| 0 <= j < index_of(s, c) implies s[j] != c by {
            if j > 0 {
                assert(s[j] == s.drop_first()[j - 1]);
            }
        }
    }
}

/// A line without the `\r` of a `\r\n` ending.
pub open spec fn strip_cr(line: Seq<char>) -> Seq<char> {
    if line.len() > 0 && line.last() == '\r' {
        line.drop_last()
    } else {
        line
    }
}

/// The lines of `s` as `str::lines` yields them: split after each `\n`, the
/// `\n` and a `\r` before it removed; a last line without `\n` is kept as is.
pub open spec fn lines(s: Seq<char>) -> Seq<Seq<char>>
    decreases s.len(),
{
    if s.len() == 0 {
        seq![]
    } else {
        let k = index_of(s, '\n');
        proof {
            lemma_index_of(s, '\n');
        }
        if k < s.len() {
            seq![strip_cr(s.take(k))] + lines(s.skip(k + 1))
        } else {
            seq![s]
        }
    }
}

/// The pid printed on the first line of `pgrep` output.
pub open spec fn pgrep_pid(out: Seq<char>) -> Option<int> {
    if lines(out).len() == 0 {
        None
    } else {
        parse_int(trim(lines(out)[0]), false, 0, u32::MAX as int)
    }
}

/// `s` without leading and trailing `"` characters.
pub open spec fn trim_quotes(s: Seq<char>) -> Seq<char>
    decreases s.len(),
{
    if s.len() > 0 && s[0] == '"' {
        trim_quotes(s.drop_first())
    } else if s.len() > 0 && s.last() == '"' {
        trim_quotes(s.drop_last())
    } else {
        s
    }
}

/// The second comma-separated field of a line (the line has a comma).
pub open spec fn second_field(line: Seq<char>) -> Seq<char> {
    let rest = line.skip(index_of(line, ',') + 1);
    rest.take(index_of(rest, ','))
}

/// The pid of the first `tasklist` CSV line that mentions `WeChat.exe` and
/// has at least two fields.
pub open spec fn tasklist_pid(ls: Seq<Seq<char>>) -> Option<int>
    decreases ls.len(),
{
    if ls.len() == 0 {
        None
    } else if has_substring(ls[0], "WeChat.exe"@) && index_of(ls[0], ',') < ls[0].len() {
        parse_int(trim_quotes(trim(second_field(ls[0]))), false, 0, u32::MAX as int)
    } else {
        tasklist_pid(ls.drop_first())
    }
}

fn slice(v: &Vec<char>, lo: usize, hi: usize) -> (r: Vec<char>)
    requires
        lo <= hi <= v.len(),
    ensures
        r@ == v@.subrange(lo as int, hi as int),
{
    let mut out: Vec<char> = Vec::new();
    let mut k = lo;
    while k < hi
        invariant
            lo <= k <= hi,
            hi <= v.len(),
            out@ == v@.subrange(lo as int, k as int),
        decreases hi - k,
    {
        out.push(v[k]);
        assert(v@.subrange(lo as int, k + 1) == v@.subrange(lo as int, k as int).push(v@[k as int]));
        k += 1;
    }
    out
}

fn find_char(v: &Vec<char>, from: usize, c: char) -> (k: usize)
    requires
        from <= v.len(),
    ensures
        k as int == from + index_of(v@.skip(from as int), c),
{
    proof {
        lemma_index_of(v@.skip(from as int), c);
    }
    let mut k = from;
    while k < v.len() && v[k] != c
        invariant
            from <= k <= v.len(),
            forall|j: int| from <= j < k ==> v@[j] != c,
        decreases v.len() - k,
    {
        k += 1;
    }
    proof {
        let t = v@.skip(from as int);
        let m = index_of(t, c);
        if m < k - from {
            assert(t[m] == v@[from + m]);
        }
        if k - from < m {
            assert(t[k - from] == v@[k as int]);
        }
    }
    k
}

/// The line starting at `pos` and the position after it.
fn next_line(v: &Vec<char>, pos: usize) -> (r: (Vec<char>, usize))
    requires
        pos < v.len(),
    ensures
        pos < r.1 <= v.len(),
        lines(v@.skip(pos as int)) == seq![r.0@] + lines(v@.skip(r.1 as int)),
{
    let k = find_char(v, pos, '\n');
    let ghost t = v@.skip(pos as int);
    proof {
        lemma_index_of(t, '\n');
    }
    if k < v.len() {
        let end = if k > pos && v[k - 1] == '\r' { k - 1 } else { k };
        let line = slice(v, pos, end);
        proof {
            assert(t.take(k - pos) == v@.subrange(pos as int, k as int));
            assert(t.skip(k - pos + 1) == v@.skip(k + 1));
            if end < k {
                assert(v@.subrange(pos as int, k as int).drop_last() == v@.subrange(pos as int, end as int));
            }
        }
        (line, k + 1)
    } else {
        let line = slice(v, pos, v.len());
        proof {
            assert(t == v@.subrange(pos as int, v.len() as int));
            assert(v@.skip(v.len() as int).len() == 0);
        }
        (line, v.len())
    }
}

fn trimmed(v: &Vec<char>) -> (r: Vec<char>)
    ensures
        r@ == trim(v@),
{
    let (lo, hi) = trim_bounds(v);
    slice(v, lo, hi)
}

fn without_quotes(v: &Vec<char>) -> (r: Vec<char>)
    ensures
        r@ == trim_quotes(v@),
{
    let mut lo: usize = 0;
    let mut hi: usize = v.len();
    assert(v@.subrange(0, v.len() as int) == v@);
    while lo < hi && (v[lo] == '"' || v[hi - 1] == '"')
        invariant
            lo <= hi <= v.len(),
            trim_quotes(v@) == trim_quotes(v@.subrange(lo as int, hi as int)),
        decreases hi - lo,
    {
        let ghost s = v@.subrange(lo as int, hi as int);
        if v[lo] == '"' {
            assert(s[0] == '"');
            assert(s.drop_first() == v@.subrange(lo + 1, hi as int));
            lo += 1;
        } else {
            assert(s.last() == '"');
            assert(s[0] != '"');
            assert(s.drop_last() == v@.subrange(lo as int, hi - 1));
            hi -= 1;
        }
    }
    proof {
        let s = v@.subrange(lo as int, hi as int);
        if lo < hi {
            assert(s[0] != '"' && s.last() != '"');
        }
    }
    slice(v, lo, hi)
}

/// The WeChat pid in `pgrep` output: the first line, trimmed, as a number.
pub fn pid_from_pgrep(out: &str) -> (r: Option<u32>)
    ensures
        r matches Some(p) ==> pgrep_pid(out@) == Some(p as int),
        r is None ==> pgrep_pid(out@) is None,
{
    let v = chars_of(out);
    if v.len() == 0 {
        return None;
    }
    assert(v@.skip(0) == v@);
    let (line, _) = next_line(&v, 0);
    let t = trimmed(&line);
    parse_u32(&t)
}

/// The WeChat pid in `tasklist /FO CSV` output: from the first line naming
/// `WeChat.exe` that has a second field, that field without spaces and quotes.
pub fn pid_from_tasklist(out: &str) -> (r: Option<u32>)
    ensures
        r matches Some(p) ==> tasklist_pid(lines(out@)) == Some(p as int),
        r is None ==> tasklist_pid(lines(out@)) is None,
{
    let v = chars_of(out);
    let name = chars_of("WeChat.exe");
    let mut pos: usize = 0;
    assert(v@.skip(0) == v@);
    while pos < v.len()
        invariant
            pos <= v.len(),
            v@ == out@,
            name@ == "WeChat.exe"@,
            tasklist_pid(lines(out@)) == tasklist_pid(lines(v@.skip(pos as int))),
        decreases v.len() - pos,
    {
        let (line, next) = next_line(&v, pos);
        let ghost ls = lines(v@.skip(pos as int));
        assert(ls[0] == line@);
        assert(ls.drop_first() == lines(v@.skip(next as int)));
        if contains_chars(&line, &name) {
            let c1 = find_char(&line, 0, ',');
            assert(line@.skip(0) == line@);
            if c1 < line.len() {
                let c2 = find_char(&line, c1 + 1, ',');
                proof {
                    lemma_index_of(line@.skip(c1 + 1), ',');
                }
                let field = slice(&line, c1 + 1, c2);
                proof {
                    let rest = line@.skip(c1 + 1);
                    lemma_index_of(rest, ',');
                    assert(rest.take(c2 - c1 - 1) == line@.subrange(c1 + 1, c2 as int));
                }
                let t = trimmed(&field);
                let q = without_quotes(&t);
                return parse_u32(&q);
            }
        }
        pos = next;
    }
    proof {
        assert(v@.skip(pos as int).len() == 0);
    }
    None
}

} // verus!
