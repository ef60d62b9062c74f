//! Standard base64 (RFC 4648 alphabet, `=` padding).

use vstd::prelude::*;
use crate::text::string_of;

verus! {

/// The base64 alphabet: `A-Z`, `a-z`, `0-9`, `+`, `/`.
pub open spec fn alphabet(v: int) -> char {
    if v < 26 {
        (('A' as int) + v) as char
    } else if v < 52 {
        (('a' as int) + v - 26) as char
    } else if v < 62 {
        (('0' as int) + v - 52) as char
    } else if v == 62 {
        '+'
    } else {
        '/'
    }
}

/// Encoding of one group of three bytes.
pub open spec fn encode_group(a: int, b: int, c: int) -> Seq<char> {
    seq![alphabet(a / 4), alphabet((a % 4) * 16 + b / 16), alphabet((b % 16) * 4 + c / 64), alphabet(c % 64)]
}

/// Base64 text of `data`: full groups of three bytes, then a padded final group.
pub open spec fn base64_text(data: Seq<u8>) -> Seq<char>
    decreases data.len(),
{
    if data.len() >= 3 {
        encode_group(data[0] as int, data[1] as int, data[2] as int) + base64_text(data.skip(3))
    } else if data.len() == 2 {
        encode_group(data[0] as int, data[1] as int, 0).take(3).push('=')
    } else if data.len() == 1 {
        encode_group(data[0] as int, 0, 0).take(2) + seq!['=', '=']
    } else {
        seq![]
    }
}

fn alphabet_char(v: u32) -> (c: char)
    requires
        v < 64,
    ensures
        c == alphabet(v as int),
{
    if v < 26 {
        ((v + 65) as u8) as char
    } else if v < 52 {
        ((v - 26 + 97) as u8) as char
    } else if v < 62 {
        ((v - 52 + 48) as u8) as char
    } else if v == 62 {
        '+'
    } else {
        '/'
    }
}

proof fn lemma_group_bits(a: u32, b: u32, c: u32)
    requires
        a < 256,
        b < 256,
        c < 256,
    ensures
        ({
            let n = (a << 16u32) | (b << 8u32) | c;
            &&& (n >> 18u32) & 0x3F == a / 4
            &&& (n >> 12u32) & 0x3F == (a % 4) * 16 + b / 16
            &&& (n >> 6u32) & 0x3F == (b % 16) * 4 + c / 64
            &&& n & 0x3F == c % 64
        }),
{
    assert({
        let n = (a << 16u32) | (b << 8u32) | c;
        &&& (n >> 18u32) & 0x3F == a / 4
        &&& (n >> 12u32) & 0x3F == (a % 4) * 16 + b / 16
        &&& (n >> 6u32) & 0x3F == (b % 16) * 4 + c / 64
        &&& n & 0x3F == c % 64
    }) by (bit_vector)
        requires
            a < 256,
            b < 256,
            c < 256,
    ;
}

/// Base64 encoding of `data`, four characters per started group of three bytes.
pub fn base64_encode(data: &[u8]) -> (s: String)
    ensures
        s@ == base64_text(data@),
{
    let mut out: Vec<char> = Vec::new();
    let mut i: usize = 0;
    assert(data@.skip(0) == data@);
    while data.len() - i >= 3
        invariant
            i <= data.len(),
            base64_text(data@) == out@ + base64_text(data@.skip(i as int)),
        decreases data.len() - i,
    {
        let a = data[i] as u32;
        let b = data[i + 1] as u32;
        let c = data[i + 2] as u32;
        proof {
            lemma_group_bits(a, b, c);
            assert(data@.skip(i as int).skip(3) == data@.skip(i + 3));
        }
        let n = (a << 16u32) | (b << 8u32) | c;
        let c0 = alphabet_char((n >> 18u32) & 0x3F);
        let c1 = alphabet_char((n >> 12u32) & 0x3F);
        let c2 = alphabet_char((n >> 6u32) & 0x3F);
        let c3 = alphabet_char(n & 0x3F);
        assert(encode_group(a as int, b as int, c as int) == seq![c0, c1, c2, c3]);
        out.push(c0);
        out.push(c1);
        out.push(c2);
        out.push(c3);
        i += 3;
    }
    let rest = data.len() - i;
    if rest == 2 {
        let a = data[i] as u32;
        let b = data[i + 1] as u32;
        proof {
            lemma_group_bits(a, b, 0);
        }
        let n = (a << 16u32) | (b << 8u32);
        assert(n == (a << 16u32) | (b << 8u32) | 0u32) by (bit_vector)
            requires n == (a << 16u32) | (b << 8u32);
        out.push(alphabet_char((n >> 18u32) & 0x3F));
        out.push(alphabet_char((n >> 12u32) & 0x3F));
        out.push(alphabet_char((n >> 6u32) & 0x3F));
        out.push('=');
    } else if rest == 1 {
        let a = data[i] as u32;
        proof {
            lemma_group_bits(a, 0, 0);
        }
        let n = a << 16u32;
        assert(n == (a << 16u32) | (0u32 << 8u32) | 0u32) by (bit_vector)
            requires n == a << 16u32;
        out.push(alphabet_char((n >> 18u32) & 0x3F));
        out.push(alphabet_char((n >> 12u32) & 0x3F));
        out.push('=');
        out.push('=');
    }
    proof {
        let t = data@.skip(i as int);
        if rest == 0 {
            assert(base64_text(t) == Seq::<char>::empty());
        }
    }
    string_of(&out)
}


/// Every started group of three bytes becomes four characters.
pub proof fn law_base64_length(data: Seq<u8>)
    ensures
        base64_text(data).len() == 4 * ((data.len() + 2) / 3),
    decreases data.len(),
{
    if data.len() >= 3 {
        law_base64_length(data.skip(3));
    }
}

/// The text uses only the base64 alphabet and `=`.
pub proof fn law_base64_alphabet(data: Seq<u8>)
    ensures
        forall|i: int|
            0 <= i < base64_text(data).len() ==> {
                let c = #[trigger] base64_text(data)[i];
                ('A' <= c <= 'Z') || ('a' <= c <= 'z') || ('0' <= c <= '9') || c == '+' || c == '/'
                    || c == '='
            },
    decreases data.len(),
{
    if data.len() >= 3 {
        law_base64_alphabet(data.skip(3));
        let g = encode_group(data[0] as int, data[1] as int, data[2] as int);
        let t = base64_text(data);
        assert forall|i: int| 0 <= i < t.len() implies {
            let c = #[trigger] t[i];
            ('A' <= c <= 'Z') || ('a' <= c <= 'z') || ('0' <= c <= '9') || c == '+' || c == '/'
                || c == '='
        } by {
            if i >= 4 {
                assert(t[i] == base64_text(data.skip(3))[i - 4]);
            }
        }
    }
}

/// The 6-bit value of a base64 character (the inverse of `alphabet`).
pub open spec fn sextet(c: char) -> int {
    if 'A' <= c <= 'Z' {
        c as int - 'A' as int
    } else if 'a' <= c <= 'z' {
        c as int - 'a' as int + 26
    } else if '0' <= c <= '9' {
        c as int - '0' as int + 52
    } else if c == '+' {
        62
    } else {
        63
    }
}

/// The three bytes that four base64 characters stand for.
pub open spec fn decode_group(t: Seq<char>) -> Seq<u8> {
    let v0 = sextet(t[0]);
    let v1 = sextet(t[1]);
    let v2 = sextet(t[2]);
    let v3 = sextet(t[3]);
    seq![(v0 * 4 + v1 / 16) as u8, ((v1 % 16) * 16 + v2 / 4) as u8, ((v2 % 4) * 64 + v3) as u8]
}

/// Standard base64 decoding of a padded text: each group of four characters
/// gives three bytes, a final group ending in `==` one byte, one ending in
/// `=` two bytes.
pub open spec fn base64_decode(t: Seq<char>) -> Seq<u8>
    decreases t.len(),
{
    if t.len() < 4 {
        seq![]
    } else if t.len() == 4 && t[2] == '=' {
        decode_group(t).take(1)
    } else if t.len() == 4 && t[3] == '=' {
        decode_group(t).take(2)
    } else {
        decode_group(t) + base64_decode(t.skip(4))
    }
}

proof fn lemma_alphabet_sextet(v: int)
    requires
        0 <= v < 64,
    ensures
        sextet(alphabet(v)) == v,
        alphabet(v) != '=',
{
}

proof fn lemma_decode_encode_group(a: int, b: int, c: int)
    requires
        0 <= a < 256,
        0 <= b < 256,
        0 <= c < 256,
    ensures
        decode_group(encode_group(a, b, c)) == seq![a as u8, b as u8, c as u8],
        encode_group(a, b, c)[2] != '=',
        encode_group(a, b, c)[3] != '=',
{
    lemma_alphabet_sextet(a / 4);
    lemma_alphabet_sextet((a % 4) * 16 + b / 16);
    lemma_alphabet_sextet((b % 16) * 4 + c / 64);
    lemma_alphabet_sextet(c % 64);
    let g = encode_group(a, b, c);
    assert(((a % 4) * 16 + b / 16) / 16 == a % 4);
    assert(((a % 4) * 16 + b / 16) % 16 == b / 16);
    assert(((b % 16) * 4 + c / 64) / 4 == b % 16);
    assert(((b % 16) * 4 + c / 64) % 4 == c / 64);
    assert(decode_group(g) =~= seq![a as u8, b as u8, c as u8]);
}

/// Decoding the base64 text of `data` gives back `data`.
pub proof fn law_base64_round_trip(data: Seq<u8>)
    ensures
        base64_decode(base64_text(data)) == data,
    decreases data.len(),
{
    let t = base64_text(data);
    if data.len() >= 3 {
        let a = data[0] as int;
        let b = data[1] as int;
        let c = data[2] as int;
        let g = encode_group(a, b, c);
        let rest = base64_text(data.skip(3));
        law_base64_round_trip(data.skip(3));
        lemma_decode_encode_group(a, b, c);
        assert(t == g + rest);
        assert(t.take(4) == g);
        assert(t.skip(4) == rest);
        assert(decode_group(t) == decode_group(g));
        assert(t[2] == g[2] && t[3] == g[3]);
        assert(data =~= seq![data[0], data[1], data[2]] + data.skip(3));
    } else if data.len() == 2 {
        let a = data[0] as int;
        let b = data[1] as int;
        lemma_decode_encode_group(a, b, 0);
        let g = encode_group(a, b, 0);
        assert(t == g.take(3).push('='));
        assert(t[0] == g[0] && t[1] == g[1] && t[2] == g[2] && t[3] == '=');
        assert(decode_group(t)[0] == decode_group(g)[0]);
        assert(decode_group(t)[1] == decode_group(g)[1]);
        assert(data =~= seq![data[0], data[1]]);
        assert(base64_decode(t) =~= decode_group(t).take(2));
    } else if data.len() == 1 {
        let a = data[0] as int;
        lemma_decode_encode_group(a, 0, 0);
        let g = encode_group(a, 0, 0);
        assert(t == g.take(2) + seq!['=', '=']);
        assert(t[0] == g[0] && t[1] == g[1] && t[2] == '=');
        assert(decode_group(t)[0] == decode_group(g)[0]);
        assert(data =~= seq![data[0]]);
        assert(base64_decode(t) =~= decode_group(t).take(1));
    } else {
        assert(data =~= Seq::<u8>::empty());
    }
}

/// Text of data made of whole groups of three bytes, followed by more data,
/// is the text of the groups followed by the text of the rest.
pub proof fn law_base64_concat(a: Seq<u8>, b: Seq<u8>)
    requires
        a.len() % 3 == 0,
    ensures
        base64_text(a + b) == base64_text(a) + base64_text(b),
    decreases a.len(),
{
    if a.len() == 0 {
        assert(a + b =~= b);
        assert(base64_text(a) =~= Seq::<char>::empty());
    } else {
        law_base64_concat(a.skip(3), b);
        assert((a + b).skip(3) =~= a.skip(3) + b);
        assert((a + b)[0] == a[0] && (a + b)[1] == a[1] && (a + b)[2] == a[2]);
    }
}

/// `=` stands only in the last two places of the text.
pub proof fn law_base64_padding_at_end(data: Seq<u8>)
    ensures
        forall|i: int|
            0 <= i < base64_text(data).len() && #[trigger] base64_text(data)[i] == '=' ==> i
                >= base64_text(data).len() - 2,
    decreases data.len(),
{
    let t = base64_text(data);
    if data.len() >= 3 {
        let a = data[0] as int;
        let b = data[1] as int;
        let c = data[2] as int;
        law_base64_padding_at_end(data.skip(3));
        lemma_alphabet_sextet(a / 4);
        lemma_alphabet_sextet((a % 4) * 16 + b / 16);
        lemma_alphabet_sextet((b % 16) * 4 + c / 64);
        lemma_alphabet_sextet(c % 64);
        let rest = base64_text(data.skip(3));
        assert forall|i: int| 0 <= i < t.len() && #[trigger] t[i] == '=' implies i >= t.len() - 2 by {
            if i >= 4 {
                assert(t[i] == rest[i - 4]);
            }
        }
    } else if data.len() == 2 {
        lemma_alphabet_sextet(data[0] as int / 4);
        lemma_alphabet_sextet((data[0] as int % 4) * 16 + data[1] as int / 16);
        lemma_alphabet_sextet((data[1] as int % 16) * 4);
    } else if data.len() == 1 {
        lemma_alphabet_sextet(data[0] as int / 4);
        lemma_alphabet_sextet((data[0] as int % 4) * 16);
    }
}

} // verus!
