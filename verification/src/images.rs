//! Image keys from the profile, and the answers of the image operations.

use vstd::prelude::*;
use vstd::utf8::is_char_boundary;
use vstd::string::StringSliceAdditionalSpecFns;
use crate::json::{JsonValue, Json};
use crate::text::{chars_of, string_of, concat, nat_text, str_eq};
use crate::answers::{obj3, obj4};
use crate::base64::{base64_encode, base64_text};

verus! {

/// The XOR key of image files: the low byte of the configured key.
pub fn xor_key_byte(key: Option<i64>) -> (r: Option<u8>)
    ensures
        key matches Some(k) ==> r == Some(k as u8),
        key is None ==> r is None,
{
    match key {
        Some(k) => Some(k as u8),
        None => None,
    }
}

/// The XOR key with which a downloaded image file is decrypted: only a file
/// of a known format version (above zero) is, and only with a configured key.
pub fn dat_decrypt_key(version: i32, xor_key: Option<u8>) -> (r: Option<u8>)
    ensures
        r == (if version > 0 { xor_key } else { None::<u8> }),
{
    if version > 0 {
        xor_key
    } else {
        None
    }
}

/// The value of one hexadecimal digit byte.
pub open spec fn hex_value(b: u8) -> Option<int> {
    if 48 <= b <= 57 {
        Some(b - 48)
    } else if 97 <= b <= 102 {
        Some(b - 87)
    } else if 65 <= b <= 70 {
        Some(b - 55)
    } else {
        None
    }
}

/// What `u8::from_str_radix(text, 16)` reads from a two-byte text: two hex
/// digits, or `+` and one hex digit.
pub open spec fn hex_pair(b0: u8, b1: u8) -> Option<int> {
    if b0 == 43 {
        hex_value(b1)
    } else {
        match (hex_value(b0), hex_value(b1)) {
            (Some(x), Some(y)) => Some(16 * x + y),
            _ => None,
        }
    }
}

/// The 16-byte AES key written as hexadecimal at the start of `b` (32 bytes
/// or more), when all its 16 pairs are valid.
pub open spec fn aes_key_bytes(b: Seq<u8>) -> Option<Seq<u8>> {
    if b.len() < 32 {
        None
    } else if forall|i: int| 0 <= i < 16 ==> #[trigger] hex_pair(b[2 * i], b[2 * i + 1]) is Some {
        Some(Seq::new(16, |i: int| hex_pair(b[2 * i], b[2 * i + 1])->0 as u8))
    } else {
        None
    }
}

/// The pairs from the `i`-th on can be cut out of the text: each lies
/// between character boundaries, up to the first pair that is not valid.
pub open spec fn pairs_cut_ok(b: Seq<u8>, i: int) -> bool
    decreases 16 - i,
{
    if i >= 16 || i < 0 {
        true
    } else {
        &&& is_char_boundary(b, 2 * i)
        &&& is_char_boundary(b, 2 * i + 2)
        &&& (hex_pair(b[2 * i], b[2 * i + 1]) is Some ==> pairs_cut_ok(b, i + 1))
    }
}

/// The key text can be read without cutting a character (`prefix_cut`: the
/// first 32 bytes are cut off as a whole first).
pub open spec fn aes_key_text_ok(b: Seq<u8>, prefix_cut: bool) -> bool {
    b.len() >= 32 ==> (pairs_cut_ok(b, 0) && (prefix_cut ==> is_char_boundary(b, 32)))
}

fn hex_value_exec(b: u8) -> (r: Option<u8>)
    ensures
        r matches Some(v) ==> hex_value(b) == Some(v as int),
        r is None ==> hex_value(b) is None,
{
    if 48 <= b && b <= 57 {
        Some(b - 48)
    } else if 97 <= b && b <= 102 {
        Some(b - 87)
    } else if 65 <= b && b <= 70 {
        Some(b - 55)
    } else {
        None
    }
}

fn hex_pair_exec(b0: u8, b1: u8) -> (r: Option<u8>)
    ensures
        r matches Some(v) ==> hex_pair(b0, b1) == Some(v as int),
        r is None ==> hex_pair(b0, b1) is None,
{
    if b0 == 43 {
        return hex_value_exec(b1);
    }
    match (hex_value_exec(b0), hex_value_exec(b1)) {
        (Some(x), Some(y)) => Some(16 * x + y),
        _ => None,
    }
}

/// Whether the configured key text can be read without cutting a character
/// (the reading is refused otherwise).
pub fn aes_key_text_readable(k: &str, prefix_cut: bool) -> (ok: bool)
    ensures
        ok == aes_key_text_ok(k.spec_bytes(), prefix_cut),
{
    let b = k.as_bytes();
    if b.len() < 32 {
        return true;
    }
    if prefix_cut && !k.is_char_boundary(32) {
        return false;
    }
    let mut i: usize = 16;
    let mut ok_from = true;
    // walk back from the last pair, so that ok_from == pairs_cut_ok(bytes, i)
    while i > 0
        invariant
            i <= 16,
            b@ == k.spec_bytes(),
            b@.len() >= 32,
            ok_from == pairs_cut_ok(b@, i as int),
        decreases i,
    {
        i -= 1;
        let valid = hex_pair_exec(b[2 * i], b[2 * i + 1]).is_some();
        ok_from = k.is_char_boundary(2 * i) && k.is_char_boundary(2 * i + 2) && (!valid || ok_from);
    }
    ok_from
}

/// The AES key of image files from its hexadecimal text: 16 bytes from the
/// first 32 characters; none when the text is shorter or a pair is not hexadecimal.
pub fn aes_key_from_hex(k: &str) -> (r: Option<Vec<u8>>)
    ensures
        r matches Some(v) ==> aes_key_bytes(k.spec_bytes()) == Some(v@),
        r is None ==> aes_key_bytes(k.spec_bytes()) is None,
{
    let b = k.as_bytes();
    if b.len() < 32 {
        return None;
    }
    let mut out: Vec<u8> = Vec::new();
    let mut i: usize = 0;
    while i < 16
        invariant
            i <= 16,
            b@ == k.spec_bytes(),
            b@.len() >= 32,
            out@.len() == i,
            forall|j: int| 0 <= j < i ==> #[trigger] hex_pair(b@[2 * j], b@[2 * j + 1]) == Some(out@[j] as int),
        decreases 16 - i,
    {
        match hex_pair_exec(b[2 * i], b[2 * i + 1]) {
            Some(v) => out.push(v),
            None => {
                assert(hex_pair(b@[2 * (i as int)], b@[2 * (i as int) + 1]) is None);
                return None;
            },
        }
        i += 1;
    }
    assert(out@ == Seq::new(16, |j: int| hex_pair(b@[2 * j], b@[2 * j + 1])->0 as u8));
    Some(out)
}

// ----------------------------------------------------------------- answers

/// `ext` without its leading dots.
pub open spec fn strip_dots(ext: Seq<char>) -> Seq<char>
    decreases ext.len(),
{
    if ext.len() > 0 && ext[0] == '.' {
        strip_dots(ext.drop_first())
    } else {
        ext
    }
}

/// An inline image: `data:image/<ext>;base64,<data>`.
pub open spec fn data_url(ext: Seq<char>, data: Seq<u8>) -> Seq<char> {
    "data:image/"@ + strip_dots(ext) + ";base64,"@ + base64_text(data)
}

fn without_dots(ext: &str) -> (r: String)
    ensures
        r@ == strip_dots(ext@),
{
    let cs = chars_of(ext);
    let mut lo: usize = 0;
    assert(cs@.skip(0) == cs@);
    while lo < cs.len() && cs[lo] == '.'
        invariant
            lo <= cs.len(),
            strip_dots(cs@) == strip_dots(cs@.skip(lo as int)),
        decreases cs.len() - lo,
    {
        assert(cs@.skip(lo as int).drop_first() == cs@.skip(lo + 1));
        lo += 1;
    }
    let mut out: Vec<char> = Vec::new();
    let mut i = lo;
    while i < cs.len()
        invariant
            lo <= i <= cs.len(),
            out@ == cs@.subrange(lo as int, i as int),
        decreases cs.len() - i,
    {
        out.push(cs[i]);
        assert(cs@.subrange(lo as int, i + 1) == cs@.subrange(lo as int, i as int).push(cs@[i as int]));
        i += 1;
    }
    assert(cs@.subrange(lo as int, cs.len() as int) == cs@.skip(lo as int));
    string_of(&out)
}

/// The answer for a downloaded image written to a file.
pub fn image_file_answer(url: &str, out: &str, ext: &str, size: usize) -> (r: JsonValue)
    ensures
        r@ == obj4(
            "url"@,
            Json::Str(url@),
            "out"@,
            Json::Str(out@),
            "ext"@,
            Json::Str(ext@),
            "size"@,
            Json::Number(nat_text(size as nat)),
        ),
{
    let mut f = crate::json::no_fields();
    crate::json::add_field(&mut f, "url", JsonValue::string(url));
    crate::json::add_field(&mut f, "out", JsonValue::string(out));
    crate::json::add_field(&mut f, "ext", JsonValue::string(ext));
    crate::json::add_field(&mut f, "size", JsonValue::count(size));
    assert(crate::json::fields_view(f@) =~= seq![
        ("url"@, Json::Str(url@)),
        ("out"@, Json::Str(out@)),
        ("ext"@, Json::Str(ext@)),
        ("size"@, Json::Number(nat_text(size as nat))),
    ]);
    JsonValue::Object(f)
}

/// The answer for a downloaded image returned inline as a data URL.
pub fn image_inline_answer(url: &str, ext: &str, data: &[u8]) -> (r: JsonValue)
    ensures
        r@ == obj4(
            "url"@,
            Json::Str(url@),
            "ext"@,
            Json::Str(ext@),
            "size"@,
            Json::Number(nat_text(data@.len())),
            "data"@,
            Json::Str(data_url(ext@, data@)),
        ),
{
    let encoded = base64_encode(data);
    let e = without_dots(ext);
    let head = concat("data:image/", e.as_str());
    let mid = concat(head.as_str(), ";base64,");
    let url_text = concat(mid.as_str(), encoded.as_str());
    let mut f = crate::json::no_fields();
    crate::json::add_field(&mut f, "url", JsonValue::string(url));
    crate::json::add_field(&mut f, "ext", JsonValue::string(ext));
    crate::json::add_field(&mut f, "size", JsonValue::count(data.len()));
    crate::json::add_field(&mut f, "data", JsonValue::text(&url_text));
    assert(crate::json::fields_view(f@) =~= seq![
        ("url"@, Json::Str(url@)),
        ("ext"@, Json::Str(ext@)),
        ("size"@, Json::Number(nat_text(data@.len()))),
        ("data"@, Json::Str(data_url(ext@, data@))),
    ]);
    JsonValue::Object(f)
}

/// Which media an export covers: images for `image` or `all`, voice for `voice` or `all`.
pub fn media_kinds(media_type: &str) -> (r: (bool, bool))
    ensures
        r.0 == (media_type@ == "image"@ || media_type@ == "all"@),
        r.1 == (media_type@ == "voice"@ || media_type@ == "all"@),
{
    let all = str_eq(media_type, "all");
    (str_eq(media_type, "image") || all, str_eq(media_type, "voice") || all)
}

/// The progress stage and message shown while exporting images (`voice`
/// false) or voice files (`voice` true).
pub fn media_progress_labels(voice: bool) -> (r: (&'static str, &'static str))
    ensures
        !voice ==> r.0@ == "images"@ && r.1@ == "exporting images"@,
        voice ==> r.0@ == "voice"@ && r.1@ == "exporting voice files"@,
{
    if voice {
        ("voice", "exporting voice files")
    } else {
        ("images", "exporting images")
    }
}

/// `{"exported", "out", "files"}`: the exported image files, then the voice
/// files, and how many there are in all.
pub fn media_export_answer(out: &str, images: Vec<JsonValue>, voices: Vec<JsonValue>) -> (r: JsonValue)
    ensures
        r@ == obj3(
            "exported"@,
            Json::Number(nat_text(images@.len() + voices@.len())),
            "out"@,
            Json::Str(out@),
            "files"@,
            Json::Array(crate::json::items_view(images@ + voices@)),
        ),
{
    let mut files = images;
    let mut rest = voices;
    files.append(&mut rest);
    let exported = files.len();
    let mut f = crate::json::no_fields();
    crate::json::add_field(&mut f, "exported", JsonValue::count(exported));
    crate::json::add_field(&mut f, "out", JsonValue::string(out));
    crate::json::add_field(&mut f, "files", JsonValue::Array(files));
    assert(crate::json::fields_view(f@) =~= seq![
        ("exported"@, Json::Number(nat_text(images@.len() + voices@.len()))),
        ("out"@, Json::Str(out@)),
        ("files"@, Json::Array(crate::json::items_view(images@ + voices@))),
    ]);
    JsonValue::Object(f)
}

} // verus!
