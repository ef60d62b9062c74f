//! Quoting of long `server_id` integers in the JSON text that the native
//! database returns, so that they survive a parse into 64-bit floats.

use vstd::prelude::*;
use crate::text::{chars_of, string_of, occurs_at, occurs_at_exec, has_substring, is_digit};

verus! {

/// The key that marks a message's server id: `"server_id":`.
pub open spec fn marker() -> Seq<char> {
    seq!['"', 's', 'e', 'r', 'v', 'e', 'r', '_', 'i', 'd', '"', ':']
}

/// ASCII whitespace as `u8::is_ascii_whitespace` defines it.
pub open spec fn is_ascii_space(c: char) -> bool {
    c == ' ' || c == '\t' || c == '\n' || c == '\x0C' || c == '\r'
}

/// Length of the run of ASCII whitespace at the start of `s`.
pub open spec fn space_run(s: Seq<char>) -> nat
    decreases s.len(),
{
    if s.len() > 0 && is_ascii_space(s[0]) {
        1 + space_run(s.drop_first())
    } else {
        0
    }
}

/// Length of the run of ASCII digits at the start of `s`.
pub open spec fn digit_run(s: Seq<char>) -> nat
    decreases s.len(),
{
    if s.len() > 0 && is_digit(s[0]) {
        1 + digit_run(s.drop_first())
    } else {
        0
    }
}

/// Length of the optional `-` at the start of `s`.
pub open spec fn sign_len(s: Seq<char>) -> nat {
    if s.len() > 0 && s[0] == '-' { 1 } else { 0 }
}

#[verifier::opaque]
/// `s` with every integer that directly follows a `"server_id":` key (after
/// optional whitespace) and has at least 16 digits turned into a JSON string.
pub open spec fn normalize_text(s: Seq<char>) -> Seq<char>
    decreases s.len(),
{
    if s.len() == 0 {
        seq![]
    } else if occurs_at(s, marker(), 0) {
        let rest = s.skip(12);
        let w = space_run(rest);
        proof {
            lemma_runs_bounded(rest);
        }
        let after = rest.skip(w as int);
        let sl = sign_len(after);
        let dl = digit_run(after.skip(sl as int));
        let number = after.take((sl + dl) as int);
        let shown = if dl >= 16 { seq!['"'] + number + seq!['"'] } else { number };
        marker() + rest.take(w as int) + shown + normalize_text(after.skip((sl + dl) as int))
    } else {
        seq![s[0]] + normalize_text(s.drop_first())
    }
}

pub proof fn lemma_runs_bounded(s: Seq<char>)
    ensures
        space_run(s) <= s.len(),
        sign_len(s.skip(space_run(s) as int)) + digit_run(
            s.skip(space_run(s) as int).skip(sign_len(s.skip(space_run(s) as int)) as int),
        ) <= s.len() - space_run(s),
{
    lemma_space_run_bounded(s);
    let after = s.skip(space_run(s) as int);
    let sl = sign_len(after);
    lemma_digit_run_bounded(after.skip(sl as int));
}

pub proof fn lemma_space_run_bounded(s: Seq<char>)
    ensures
        space_run(s) <= s.len(),
    decreases s.len(),
{
    if s.len() > 0 {
        lemma_space_run_bounded(s.drop_first());
    }
}

pub proof fn lemma_digit_run_bounded(s: Seq<char>)
    ensures
        digit_run(s) <= s.len(),
    decreases s.len(),
{
    if s.len() > 0 {
        lemma_digit_run_bounded(s.drop_first());
    }
}

/// Text without the marker passes through unchanged.
pub proof fn lemma_normalize_without_marker(s: Seq<char>)
    requires
        !has_substring(s, marker()),
    ensures
        normalize_text(s) == s,
    decreases s.len(),
{
    reveal(normalize_text);
    if s.len() > 0 {
        assert(!occurs_at(s, marker(), 0));
        assert forall|i: int| !occurs_at(s.drop_first(), marker(), i) by {
            if occurs_at(s.drop_first(), marker(), i) {
                assert(s.subrange(i + 1, i + 1 + 12) == s.drop_first().subrange(i, i + 12));
                assert(occurs_at(s, marker(), i + 1));
            }
        }
        lemma_normalize_without_marker(s.drop_first());
        assert(seq![s[0]] + s.drop_first() == s);
    }
}

fn is_ascii_space_char(c: char) -> (b: bool)
    ensures
        b == is_ascii_space(c),
{
    c == ' ' || c == '\t' || c == '\n' || c == '\x0C' || c == '\r'
}

fn marker_chars() -> (v: Vec<char>)
    ensures
        v@ == marker(),
{
    let v = vec!['"', 's', 'e', 'r', 'v', 'e', 'r', '_', 'i', 'd', '"', ':'];
    assert(v@ == marker());
    v
}

proof fn lemma_space_run_skip(s: Seq<char>, i: int)
    requires
        0 <= i <= s.len(),
        forall|j: int| 0 <= j < i ==> is_ascii_space(#[trigger] s[j]),
    ensures
        space_run(s) == i + space_run(s.skip(i)),
    decreases i,
{
    if i > 0 {
        assert(s.skip(i) == s.drop_first().skip(i - 1));
        lemma_space_run_skip(s.drop_first(), i - 1);
    } else {
        assert(s.skip(0) == s);
    }
}

proof fn lemma_digit_run_skip(s: Seq<char>, i: int)
    requires
        0 <= i <= s.len(),
        forall|j: int| 0 <= j < i ==> is_digit(#[trigger] s[j]),
    ensures
        digit_run(s) == i + digit_run(s.skip(i)),
    decreases i,
{
    if i > 0 {
        assert(s.skip(i) == s.drop_first().skip(i - 1));
        lemma_digit_run_skip(s.drop_first(), i - 1);
    } else {
        assert(s.skip(0) == s);
    }
}

fn append_chars(out: &mut Vec<char>, src: &Vec<char>, from: usize, to: usize)
    requires
        from <= to <= src.len(),
    ensures
        final(out)@ == old(out)@ + src@.subrange(from as int, to as int),
{
    let mut k = from;
    while k < to
        invariant
            from <= k <= to,
            to <= src.len(),
            out@ == old(out)@ + src@.subrange(from as int, k as int),
        decreases to - k,
    {
        out.push(src[k]);
        assert(src@.subrange(from as int, k + 1) == src@.subrange(from as int, k as int).push(
            src@[k as int],
        ));
        k += 1;
    }
}

/// How a number after the marker is written: quoted when it has 16 or more digits.
pub open spec fn shown_number(number: Seq<char>, digits: int) -> Seq<char> {
    if digits >= 16 { seq!['"'] + number + seq!['"'] } else { number }
}

proof fn lemma_marker_step(s: Seq<char>, i0: int, ws_end: int, digits_start: int, i: int)
    requires
        occurs_at(s, marker(), i0),
        i0 + 12 <= ws_end <= digits_start <= i <= s.len(),
        forall|j: int| i0 + 12 <= j < ws_end ==> is_ascii_space(#[trigger] s[j]),
        ws_end == s.len() || !is_ascii_space(s[ws_end]),
        digits_start == ws_end + (if ws_end < s.len() && s[ws_end] == '-' { 1int } else { 0int }),
        forall|j: int| digits_start <= j < i ==> is_digit(#[trigger] s[j]),
        i == s.len() || !is_digit(s[i]),
    ensures
        normalize_text(s.skip(i0)) == marker() + s.subrange(i0 + 12, ws_end) + shown_number(
            s.subrange(ws_end, i),
            i - digits_start,
        ) + normalize_text(s.skip(i)),
{
    let t = s.skip(i0);
    assert(t.subrange(0, 12) == s.subrange(i0, i0 + 12));
    assert(occurs_at(t, marker(), 0));
    reveal(normalize_text);
    let rest = t.skip(12);
    assert(rest == s.skip(i0 + 12));
    lemma_space_run_skip(rest, ws_end - i0 - 12);
    let after = rest.skip(ws_end - i0 - 12);
    assert(after == s.skip(ws_end));
    if ws_end < s.len() {
        assert(after[0] == s[ws_end]);
    }
    assert(space_run(after) == 0);
    assert(space_run(rest) == ws_end - i0 - 12);
    assert(sign_len(after) == digits_start - ws_end);
    let ds = after.skip(digits_start - ws_end);
    assert(ds == s.skip(digits_start));
    lemma_digit_run_skip(ds, i - digits_start);
    assert(ds.skip(i - digits_start) == s.skip(i));
    if i < s.len() {
        assert(s.skip(i)[0] == s[i]);
    }
    assert(digit_run(s.skip(i)) == 0);
    assert(digit_run(ds) == i - digits_start);
    assert(rest.take(ws_end - i0 - 12) == s.subrange(i0 + 12, ws_end));
    assert(after.take(i - ws_end) == s.subrange(ws_end, i));
    assert(after.skip(i - ws_end) == s.skip(i));
}

/// Copies the marker at `i0`, the whitespace and the number after it (quoted
/// when it has 16 or more digits) to `out`; returns the index after the number.
fn copy_marked_number(s: &Vec<char>, m: &Vec<char>, i0: usize, out: &mut Vec<char>) -> (i: usize)
    requires
        m@ == marker(),
        occurs_at(s@, marker(), i0 as int),
    ensures
        i0 < i <= s.len(),
        old(out)@ + normalize_text(s@.skip(i0 as int)) == final(out)@ + normalize_text(
            s@.skip(i as int),
        ),
{
    append_chars(out, m, 0, 12);
    assert(m@.subrange(0, 12) == marker());
    assert(marker().len() == 12);
    assert(i0 + 12 <= s.len());
    let mut i = i0 + 12;
    let ws_start = i;
    while i < s.len() && is_ascii_space_char(s[i])
        invariant
            ws_start <= i <= s.len(),
            forall|j: int| ws_start <= j < i ==> is_ascii_space(#[trigger] s@[j]),
        decreases s.len() - i,
    {
        i += 1;
    }
    let ws_end = i;
    append_chars(out, s, ws_start, ws_end);
    if i < s.len() && s[i] == '-' {
        i += 1;
    }
    let digits_start = i;
    while i < s.len() && '0' <= s[i] && s[i] <= '9'
        invariant
            digits_start <= i <= s.len(),
            forall|j: int| digits_start <= j < i ==> is_digit(#[trigger] s@[j]),
        decreases s.len() - i,
    {
        i += 1;
    }
    proof {
        lemma_marker_step(s@, i0 as int, ws_end as int, digits_start as int, i as int);
    }
    let ghost before = out@;
    if i - digits_start >= 16 {
        out.push('"');
        append_chars(out, s, ws_end, i);
        out.push('"');
        assert(out@ == before + (seq!['"'] + s@.subrange(ws_end as int, i as int) + seq!['"']));
    } else {
        append_chars(out, s, ws_end, i);
    }
    i
}

/// Rewrites the JSON text so that every `"server_id":` integer of 16 or more
/// digits becomes a string; other text is copied unchanged.
pub fn normalize_int64_json(raw: &str) -> (r: String)
    ensures
        r@ == normalize_text(raw@),
        !has_substring(raw@, marker()) ==> r@ == raw@,
{
    let s = chars_of(raw);
    let m = marker_chars();
    if !crate::text::contains_chars(&s, &m) {
        proof {
            lemma_normalize_without_marker(raw@);
        }
        return string_of(&s);
    }
    let mut out: Vec<char> = Vec::new();
    let mut i: usize = 0;
    assert(s@.skip(0) == s@);
    while i < s.len()
        invariant
            i <= s.len(),
            m@ == marker(),
            normalize_text(s@) == out@ + normalize_text(s@.skip(i as int)),
        decreases s.len() - i,
    {
        let ghost t = s@.skip(i as int);
        if occurs_at_exec(&s, &m, i) {
            assert(t.subrange(0, 12) == s@.subrange(i as int, i + 12));
            assert(occurs_at(t, marker(), 0));
            i = copy_marked_number(&s, &m, i, &mut out);
        } else {
            assert(!occurs_at(t, marker(), 0)) by {
                if t.len() >= 12 {
                    assert(t.subrange(0, 12) == s@.subrange(i as int, i + 12));
                }
            }
            assert(t.drop_first() == s@.skip(i + 1));
            proof {
                reveal(normalize_text);
            }
            out.push(s[i]);
            i += 1;
        }
    }
    proof {
        reveal(normalize_text);
        assert(s@.skip(i as int).len() == 0);
        assert(out@ + Seq::<char>::empty() == out@);
    }
    string_of(&out)
}

// --------------------------------------------------------------------- laws

/// How many numbers `normalize_text` puts in quotes.
pub open spec fn quoted_runs(s: Seq<char>) -> nat
    decreases s.len(),
{
    if s.len() == 0 {
        0
    } else if occurs_at(s, marker(), 0) {
        let rest = s.skip(12);
        let w = space_run(rest);
        proof {
            lemma_runs_bounded(rest);
        }
        let after = rest.skip(w as int);
        let sl = sign_len(after);
        let dl = digit_run(after.skip(sl as int));
        (if dl >= 16 { 1nat } else { 0nat }) + quoted_runs(after.skip((sl + dl) as int))
    } else {
        quoted_runs(s.drop_first())
    }
}

/// Normalizing adds exactly two characters, a pair of quotes, per quoted number.
pub proof fn law_normalize_length(s: Seq<char>)
    ensures
        normalize_text(s).len() == s.len() + 2 * quoted_runs(s),
    decreases s.len(),
{
    reveal(normalize_text);
    if s.len() > 0 {
        if occurs_at(s, marker(), 0) {
            let rest = s.skip(12);
            lemma_runs_bounded(rest);
            let w = space_run(rest);
            let after = rest.skip(w as int);
            let sl = sign_len(after);
            let dl = digit_run(after.skip(sl as int));
            law_normalize_length(after.skip((sl + dl) as int));
        } else {
            law_normalize_length(s.drop_first());
        }
    }
}

/// Every number `normalize_text` quotes is followed by text that does not
/// start with `server_id":` (so the closing quote does not begin a new key).
/// Every JSON text is so: a number there is followed by `,`, `}`, `]`,
/// whitespace or the end.
pub open spec fn quotes_end_safely(s: Seq<char>) -> bool
    decreases s.len(),
{
    if s.len() == 0 {
        true
    } else if occurs_at(s, marker(), 0) {
        let rest = s.skip(12);
        let w = space_run(rest);
        proof {
            lemma_runs_bounded(rest);
        }
        let after = rest.skip(w as int);
        let sl = sign_len(after);
        let dl = digit_run(after.skip(sl as int));
        let rp = after.skip((sl + dl) as int);
        &&& (dl >= 16 ==> !occurs_at(rp, marker().skip(1), 0))
        &&& quotes_end_safely(rp)
    } else {
        quotes_end_safely(s.drop_first())
    }
}

proof fn lemma_space_run_props(s: Seq<char>)
    ensures
        space_run(s) <= s.len(),
        forall|j: int| 0 <= j < space_run(s) ==> is_ascii_space(#[trigger] s[j]),
        space_run(s) < s.len() ==> !is_ascii_space(s[space_run(s) as int]),
    decreases s.len(),
{
    if s.len() > 0 && is_ascii_space(s[0]) {
        lemma_space_run_props(s.drop_first());
        assert forall|j: int| 0 <= j < space_run(s) implies is_ascii_space(#[trigger] s[j]) by {
            if j > 0 {
                assert(s[j] == s.drop_first()[j - 1]);
            }
        }
    }
}

proof fn lemma_digit_run_props(s: Seq<char>)
    ensures
        digit_run(s) <= s.len(),
        forall|j: int| 0 <= j < digit_run(s) ==> is_digit(#[trigger] s[j]),
        digit_run(s) < s.len() ==> !is_digit(s[digit_run(s) as int]),
    decreases s.len(),
{
    if s.len() > 0 && is_digit(s[0]) {
        lemma_digit_run_props(s.drop_first());
        assert forall|j: int| 0 <= j < digit_run(s) implies is_digit(#[trigger] s[j]) by {
            if j > 0 {
                assert(s[j] == s.drop_first()[j - 1]);
            }
        }
    }
}

/// Normalizing keeps the first character, and the empty text.
proof fn lemma_normalize_first(x: Seq<char>)
    ensures
        x.len() == 0 ==> normalize_text(x) == Seq::<char>::empty(),
        x.len() > 0 ==> normalize_text(x).len() > 0 && normalize_text(x)[0] == x[0],
{
    reveal(normalize_text);
    if x.len() > 0 && occurs_at(x, marker(), 0) {
        assert(x.subrange(0, 12)[0] == x[0]);
    }
}

/// A text that does not start with a part `marker().skip(k)` of the key is
/// not made to start with it by normalizing.
proof fn lemma_normalize_keeps_no_key_start(x: Seq<char>, k: int)
    requires
        1 <= k <= 11,
        !occurs_at(x, marker().skip(k), 0),
    ensures
        !occurs_at(normalize_text(x), marker().skip(k), 0),
    decreases x.len(),
{
    reveal(normalize_text);
    let t = marker().skip(k);
    let n = normalize_text(x);
    if x.len() == 0 {
    } else if occurs_at(x, marker(), 0) {
        assert(n.subrange(0, 12) == marker());
        if occurs_at(n, t, 0) {
            assert(n.subrange(0, t.len() as int) == n.subrange(0, 12).subrange(0, t.len() as int));
            assert(x.subrange(0, t.len() as int) == x.subrange(0, 12).subrange(0, t.len() as int));
            assert(occurs_at(x, t, 0));
        }
    } else {
        let x1 = x.drop_first();
        assert(n == seq![x[0]] + normalize_text(x1));
        if x[0] == t[0] && t.len() > 1 {
            let t1 = marker().skip(k + 1);
            assert(t1 == t.drop_first());
            assert(t =~= seq![t[0]] + t1);
            if occurs_at(x1, t1, 0) {
                assert(x.subrange(0, t.len() as int) =~= seq![x[0]] + x1.subrange(0, t1.len() as int));
                assert(occurs_at(x, t, 0));
            }
            lemma_normalize_keeps_no_key_start(x1, k + 1);
            if occurs_at(n, t, 0) {
                assert(normalize_text(x1).subrange(0, t1.len() as int) =~= n.subrange(0, t.len() as int).drop_first());
            }
        } else if x[0] == t[0] {
            assert(x.subrange(0, 1) =~= t);
        } else {
            if occurs_at(n, t, 0) {
                assert(n.subrange(0, t.len() as int)[0] == n[0]);
            }
        }
    }
}

/// Text without a quote character passes through normalizing unchanged in front.
proof fn lemma_normalize_quote_free_prefix(p: Seq<char>, z: Seq<char>)
    requires
        forall|i: int| 0 <= i < p.len() ==> #[trigger] p[i] != '"',
    ensures
        normalize_text(p + z) == p + normalize_text(z),
    decreases p.len(),
{
    reveal(normalize_text);
    if p.len() > 0 {
        let pz = p + z;
        assert(pz[0] == p[0]);
        assert(!occurs_at(pz, marker(), 0)) by {
            if occurs_at(pz, marker(), 0) {
                assert(pz.subrange(0, 12)[0] == pz[0]);
            }
        }
        assert(pz.drop_first() =~= p.drop_first() + z);
        lemma_normalize_quote_free_prefix(p.drop_first(), z);
        assert(p =~= seq![p[0]] + p.drop_first());
    } else {
        assert(p + z =~= z);
    }
}

/// The first pass at a marker: the marker, the whitespace, the number as
/// shown, then the rest normalized.
proof fn lemma_first_pass_at_marker(s: Seq<char>)
    requires
        occurs_at(s, marker(), 0),
    ensures
        ({
            let rest = s.skip(12);
            let w = space_run(rest);
            let after = rest.skip(w as int);
            let sl = sign_len(after);
            let dl = digit_run(after.skip(sl as int));
            &&& w + sl + dl <= rest.len()
            &&& normalize_text(s) == marker() + rest.take(w as int) + shown_number(
                after.take((sl + dl) as int),
                dl as int,
            ) + normalize_text(after.skip((sl + dl) as int))
        }),
{
    reveal(normalize_text);
    lemma_runs_bounded(s.skip(12));
}

/// The second pass over a marker whose number was quoted, or left as it was.
proof fn lemma_second_pass_at_marker(s: Seq<char>)
    requires
        occurs_at(s, marker(), 0),
        quotes_end_safely(s),
        ({
            let rest = s.skip(12);
            let after = rest.skip(space_run(rest) as int);
            let sl = sign_len(after);
            let rp = after.skip((sl + digit_run(after.skip(sl as int))) as int);
            normalize_text(normalize_text(rp)) == normalize_text(rp)
        }),
    ensures
        normalize_text(normalize_text(s)) == normalize_text(s),
{
    let rest = s.skip(12);
    lemma_runs_bounded(rest);
    lemma_space_run_props(rest);
    let w = space_run(rest);
    let after = rest.skip(w as int);
    let sl = sign_len(after);
    let ds = after.skip(sl as int);
    lemma_digit_run_props(ds);
    let dl = digit_run(ds);
    let number = after.take((sl + dl) as int);
    let rp = after.skip((sl + dl) as int);
    let ws = rest.take(w as int);
    let nrp = normalize_text(rp);
    lemma_normalize_first(rp);
    lemma_first_pass_at_marker(s);
    assert(quotes_end_safely(s) == (
        (dl >= 16 ==> !occurs_at(rp, marker().skip(1), 0)) && quotes_end_safely(rp)));
    let shown = shown_number(number, dl as int);
    let o = normalize_text(s);
    assert(o == marker() + ws + shown + nrp);
    let y = shown + nrp;
    assert(o =~= marker() + ws + y);
    let ws_end: int = 12 + w as int;
    assert(o.subrange(0, 12) =~= marker());
    assert forall|j: int| 12 <= j < ws_end implies is_ascii_space(#[trigger] o[j]) by {
        assert(o[j] == rest[j - 12]);
    }
    assert(o.skip(ws_end) =~= y);
    assert(o.subrange(12, ws_end) =~= ws);
    // what follows the whitespace is not whitespace
    if y.len() > 0 {
        assert(o[ws_end] == y[0]);
        if shown.len() > 0 {
            assert(y[0] == shown[0]);
            if dl < 16 {
                assert(number[0] == after[0]);
                if sl == 0 {
                    assert(ds[0] == after[0]);
                }
            }
        } else {
            assert(y[0] == nrp[0]);
            assert(rp =~= after);
            assert(after[0] == rest[w as int]);
        }
    }
    if dl >= 16 {
        assert(number.len() > 0);
        assert(number[0] == after[0]);
        if sl == 0 {
            assert(ds[0] == after[0]);
        }
        assert(o[ws_end] == '"');
        lemma_marker_step(o, 0, ws_end, ws_end, ws_end);
        assert(o.skip(0) =~= o);
        assert(o.subrange(ws_end, ws_end) =~= Seq::<char>::empty());
        assert(normalize_text(o) =~= marker() + ws + normalize_text(y));
        assert forall|i: int| 0 <= i < number.len() implies #[trigger] number[i] == '-' || is_digit(
            number[i],
        ) by {
            if i < sl {
                assert(number[i] == after[0]);
            } else {
                assert(number[i] == ds[i - sl]);
            }
        }
        lemma_quoted_number_kept(number, rp);
    } else {
        let digits_start: int = ws_end + sl;
        let i: int = digits_start + dl;
        assert(number =~= after.take(sl as int) + ds.take(dl as int));
        if sl == 1 {
            assert(o[ws_end] == number[0]);
            assert(number[0] == after[0]);
        } else if y.len() > 0 {
            if number.len() > 0 {
                assert(number[0] == ds[0]);
            } else {
                assert(rp =~= after);
            }
        }
        assert forall|j: int| digits_start <= j < i implies is_digit(#[trigger] o[j]) by {
            assert(o[j] == number[j - ws_end]);
            assert(number[j - ws_end] == ds[j - digits_start]);
        }
        assert(o.skip(i) =~= nrp);
        if i < o.len() {
            assert(o[i] == nrp[0]);
            assert(rp =~= ds.skip(dl as int));
            assert(rp[0] == ds[dl as int]);
        }
        lemma_marker_step(o, 0, ws_end, digits_start, i);
        assert(o.skip(0) =~= o);
        assert(o.subrange(ws_end, i) =~= number);
    }
}

/// A quoted number followed by normalized text that does not start with
/// `server_id":` is left as it is by a second pass.
proof fn lemma_quoted_number_kept(number: Seq<char>, rp: Seq<char>)
    requires
        number.len() > 0,
        number[0] == '-' || is_digit(number[0]),
        forall|i: int| 0 <= i < number.len() ==> #[trigger] number[i] == '-' || is_digit(number[i]),
        !occurs_at(rp, marker().skip(1), 0),
        normalize_text(normalize_text(rp)) == normalize_text(rp),
    ensures
        ({
            let y = seq!['"'] + number + seq!['"'] + normalize_text(rp);
            normalize_text(y) == y
        }),
{
    reveal(normalize_text);
    let nrp = normalize_text(rp);
    let inner = number + seq!['"'] + nrp;
    let y = seq!['"'] + number + seq!['"'] + nrp;
    assert(y =~= seq!['"'] + inner);
    assert(!occurs_at(y, marker(), 0)) by {
        if occurs_at(y, marker(), 0) {
            assert(y.subrange(0, 12)[1] == y[1]);
            assert(y[1] == number[0]);
        }
    }
    assert(y.drop_first() =~= inner);
    assert forall|i: int| 0 <= i < number.len() implies #[trigger] number[i] != '"' by {
        assert(number[i] == '-' || is_digit(number[i]));
    }
    let z = seq!['"'] + nrp;
    lemma_normalize_quote_free_prefix(number, z);
    assert(inner =~= number + z);
    lemma_normalize_keeps_no_key_start(rp, 1);
    assert(!occurs_at(z, marker(), 0)) by {
        if occurs_at(z, marker(), 0) {
            assert(nrp.subrange(0, 11) =~= z.subrange(0, 12).drop_first());
            assert(marker().skip(1) =~= marker().drop_first());
            assert(occurs_at(nrp, marker().skip(1), 0));
        }
    }
    assert(z.drop_first() =~= nrp);
    assert(normalize_text(z) =~= z);
}

/// Normalizing a second time changes nothing, on every text whose quoted
/// numbers are not directly followed by `server_id":` (every JSON text).
pub proof fn law_normalize_idempotent(s: Seq<char>)
    requires
        quotes_end_safely(s),
    ensures
        normalize_text(normalize_text(s)) == normalize_text(s),
    decreases s.len(),
{
    if s.len() == 0 {
        lemma_normalize_first(s);
        lemma_normalize_first(normalize_text(s));
        return;
    }
    if occurs_at(s, marker(), 0) {
        let rest = s.skip(12);
        lemma_runs_bounded(rest);
        let after = rest.skip(space_run(rest) as int);
        let sl = sign_len(after);
        let rp = after.skip((sl + digit_run(after.skip(sl as int))) as int);
        assert(quotes_end_safely(rp));
        law_normalize_idempotent(rp);
        lemma_second_pass_at_marker(s);
    } else {
        let s1 = s.drop_first();
        assert(quotes_end_safely(s1));
        law_normalize_idempotent(s1);
        lemma_second_pass_plain(s);
    }
}

/// The second pass over a character that does not start a marker.
proof fn lemma_second_pass_plain(s: Seq<char>)
    requires
        s.len() > 0,
        !occurs_at(s, marker(), 0),
        normalize_text(normalize_text(s.drop_first())) == normalize_text(s.drop_first()),
    ensures
        normalize_text(normalize_text(s)) == normalize_text(s),
{
    reveal(normalize_text);
    let s1 = s.drop_first();
    let n1 = normalize_text(s1);
    let o = normalize_text(s);
    assert(o == seq![s[0]] + n1);
    assert(!occurs_at(o, marker(), 0)) by {
        if occurs_at(o, marker(), 0) {
            assert(o.subrange(0, 12)[0] == o[0]);
            assert(marker().skip(1) =~= marker().drop_first());
            assert(s[0] == '"');
            assert(!occurs_at(s1, marker().skip(1), 0)) by {
                if occurs_at(s1, marker().skip(1), 0) {
                    assert(s.subrange(0, 12) =~= seq![s[0]] + s1.subrange(0, 11));
                    assert(marker() =~= seq!['"'] + marker().skip(1));
                }
            }
            lemma_normalize_keeps_no_key_start(s1, 1);
            assert(n1.subrange(0, 11) =~= o.subrange(0, 12).drop_first());
        }
    }
    assert(o.drop_first() =~= n1);
}

} // verus!
