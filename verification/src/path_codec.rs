//! Normalisation of the paths that the front end sends: `file://` URIs and
//! percent-encoded paths become plain absolute paths.
use vstd::prelude::*;
use vstd::pervasive::VecAdditionalExecFns;
use vstd::utf8::*;
use crate::json::JsonValue;
use crate::settings::{normalized_copy, settings_normalized, Settings};
use crate::text::{
    bytes_of, chars_of, chars_start_with, is_ws, slice_chars, starts_with, str_eq, string_from_utf8, string_of, trim,
    trim_chars, trim_end, trim_start,
};

verus! {

broadcast use vstd::string::group_string_axioms;

/// The value of an ASCII hexadecimal digit.
pub open spec fn hex_digit(b: u8) -> Option<u8> {
    if 48 <= b && b <= 57 {
        Some((b - 48) as u8)
    } else if 97 <= b && b <= 102 {
        Some((b - 97 + 10) as u8)
    } else if 65 <= b && b <= 70 {
        Some((b - 65 + 10) as u8)
    } else {
        None
    }
}

/// `b[0..3]` is a percent escape: `%` followed by two hexadecimal digits.
pub open spec fn is_escape(b: Seq<u8>) -> bool {
    &&& b.len() > 2
    &&& b[0] == 37
    &&& hex_digit(b[1]) is Some
    &&& hex_digit(b[2]) is Some
}

/// The byte that the escape at the start of `b` stands for.
pub open spec fn escape_byte(b: Seq<u8>) -> u8 {
    (hex_digit(b[1])->0 * 16 + hex_digit(b[2])->0) as u8
}

/// The bytes of `b` with every percent escape, scanned from the left,
/// replaced by the byte it stands for.
pub open spec fn pct_out(b: Seq<u8>) -> Seq<u8>
    decreases b.len(),
{
    if b.len() == 0 {
        seq![]
    } else if is_escape(b) {
        seq![escape_byte(b)] + pct_out(b.skip(3))
    } else {
        seq![b[0]] + pct_out(b.skip(1))
    }
}

/// The left-to-right scan of `b` decodes at least one escape.
pub open spec fn pct_changed(b: Seq<u8>) -> bool
    decreases b.len(),
{
    if b.len() == 0 {
        false
    } else if is_escape(b) {
        true
    } else {
        pct_changed(b.skip(1))
    }
}

/// The percent decoding of `s`: present only where at least one escape was
/// decoded and the decoded bytes are valid UTF-8.
pub open spec fn percent_decoded(s: Seq<char>) -> Option<Seq<char>> {
    let b = encode_utf8(s);
    if pct_changed(b) && valid_utf8(pct_out(b)) {
        Some(decode_utf8(pct_out(b)))
    } else {
        None
    }
}

/// `t` without the prefix `p`, where `t` starts with it.
pub open spec fn strip_prefix(t: Seq<char>, p: Seq<char>) -> Option<Seq<char>> {
    if starts_with(t, p) {
        Some(t.skip(p.len() as int))
    } else {
        None
    }
}

/// What `normalize_path` makes of `p`: the trimmed text; where it is a
/// `file://` (or `file://localhost`) URI or percent-encoded and decodes to an
/// absolute path, that decoded path.
pub open spec fn normalized(p: Seq<char>) -> Seq<char> {
    let t = trim(p);
    if t.len() == 0 {
        t
    } else {
        let cand = match strip_prefix(t, "file://localhost"@) {
            Some(rest) => rest,
            None => match strip_prefix(t, "file://"@) {
                Some(rest) => rest,
                None => t,
            },
        };
        let dec = match percent_decoded(cand) {
            Some(d) => d,
            None => cand,
        };
        if dec.len() > 0 && dec[0] == '/' {
            dec
        } else {
            t
        }
    }
}

proof fn lemma_high_bytes(y: u8)
    by (bit_vector)
    ensures
        (0xC0u8 | y) != 37u8,
        (0xE0u8 | y) != 37u8,
        (0xF0u8 | y) != 37u8,
        (0x80u8 | y) != 37u8,
{
}

proof fn lemma_char_code_value(c: char)
    ensures
        c as u32 == c as int,
{
}

proof fn lemma_scalar_without_percent(c: u32)
    requires
        c != 37,
    ensures
        forall|k: int| 0 <= k < encode_scalar(c).len() ==> encode_scalar(c)[k] != 37u8,
{
    if has_width_1_encoding(c) {
        assert((c & 0x7F) as u8 != 37u8) by (bit_vector)
            requires
                c <= 0x7F,
                c != 37,
        ;
    } else {
        lemma_high_bytes(((c >> 6) & 0x1F) as u8);
        lemma_high_bytes(((c >> 12) & 0x0F) as u8);
        lemma_high_bytes(((c >> 18) & 0x7) as u8);
        lemma_high_bytes((c & 0x3F) as u8);
        lemma_high_bytes(((c >> 6) & 0x3F) as u8);
        lemma_high_bytes(((c >> 12) & 0x3F) as u8);
    }
}

proof fn lemma_encoding_without_percent(p: Seq<char>)
    requires
        forall|i: int| 0 <= i < p.len() ==> p[i] != '%',
    ensures
        forall|k: int| 0 <= k < encode_utf8(p).len() ==> encode_utf8(p)[k] != 37u8,
    decreases p.len(),
{
    if p.len() > 0 {
        assert(p[0] != '%');
        assert(p[0] as int != '%' as int);
        assert('%' as int == 37);
        lemma_char_code_value(p[0]);
        lemma_scalar_without_percent(p[0] as u32);
        lemma_encoding_without_percent(p.drop_first());
        let a = encode_scalar(p[0] as u32);
        let b = encode_utf8(p.drop_first());
        assert forall|k: int| 0 <= k < (a + b).len() implies (a + b)[k] != 37u8 by {
            if k < a.len() {
                assert((a + b)[k] == a[k]);
            } else {
                assert((a + b)[k] == b[k - a.len()]);
            }
        }
    }
}

proof fn lemma_no_escape_unchanged(b: Seq<u8>)
    requires
        forall|k: int| 0 <= k < b.len() ==> b[k] != 37u8,
    ensures
        !pct_changed(b),
    decreases b.len(),
{
    if b.len() > 0 {
        assert(b[0] != 37u8);
        lemma_no_escape_unchanged(b.skip(1));
    }
}

/// A plain absolute path, with no surrounding white space and no `%`, is
/// already normalised: `normalize_path` hands it back unchanged.
pub proof fn lemma_plain_path_unchanged(p: Seq<char>)
    requires
        trim(p) == p,
        p.len() > 0,
        p[0] == '/',
        forall|i: int| 0 <= i < p.len() ==> p[i] != '%',
    ensures
        normalized(p) == p,
{
    reveal_strlit("file://localhost");
    reveal_strlit("file://");
    assert(!starts_with(p, "file://localhost"@)) by {
        if starts_with(p, "file://localhost"@) {
            assert(p.take(16)[0] == p[0]);
        }
    }
    assert(!starts_with(p, "file://"@)) by {
        if starts_with(p, "file://"@) {
            assert(p.take(7)[0] == p[0]);
        }
    }
    lemma_encoding_without_percent(p);
    lemma_no_escape_unchanged(encode_utf8(p));
}

/// A `file://` URI, or a `file://localhost` one, of a plain absolute path
/// (no `%`, no white space at its end) is normalised to that path.
pub proof fn lemma_file_uri(p: Seq<char>)
    requires
        p.len() > 0,
        p[0] == '/',
        !is_ws(p.last()),
        forall|i: int| 0 <= i < p.len() ==> p[i] != '%',
    ensures
        normalized("file://"@ + p) == p,
        normalized("file://localhost"@ + p) == p,
{
    reveal_strlit("file://");
    reveal_strlit("file://localhost");
    lemma_encoding_without_percent(p);
    lemma_no_escape_unchanged(encode_utf8(p));
    let u = "file://"@ + p;
    assert(u[0] == 'f');
    assert(!is_ws(u[0]));
    assert(u.last() == p.last());
    assert(trim_start(u) == u);
    assert(trim_end(u) == u);
    assert(trim(u) == u);
    assert(!starts_with(u, "file://localhost"@)) by {
        if starts_with(u, "file://localhost"@) {
            assert(u.take(16)[7] == u[7]);
            assert(u[7] == p[0]);
        }
    }
    assert(starts_with(u, "file://"@)) by {
        assert(u.take(7) =~= "file://"@);
    }
    assert(u.skip(7) =~= p);
    let v = "file://localhost"@ + p;
    assert(v[0] == 'f');
    assert(v.last() == p.last());
    assert(trim_start(v) == v);
    assert(trim_end(v) == v);
    assert(starts_with(v, "file://localhost"@)) by {
        assert(v.take(16) =~= "file://localhost"@);
    }
    assert(v.skip(16) =~= p);
}

/// Normalising a path that is already normalised changes nothing more, where
/// the result holds no `%` and no surrounding white space.
pub proof fn lemma_normalize_idempotent(p: Seq<char>)
    requires
        trim(normalized(p)) == normalized(p),
        forall|i: int| 0 <= i < normalized(p).len() ==> normalized(p)[i] != '%',
    ensures
        normalized(normalized(p)) == normalized(p),
{
    let r = normalized(p);
    if r.len() > 0 && r[0] == '/' {
        lemma_plain_path_unchanged(r);
    } else {
        assert(r == trim(p));
    }
}

/// Every hexadecimal digit, in either case, stands for its value, and no
/// other byte is one: `0`..`9` (bytes 48 to 57) are 0 to 9, `a`..`f` (97 to
/// 102) and `A`..`F` (65 to 70) are 10 to 15.
pub proof fn lemma_hex_digits(b: u8)
    ensures
        48 <= b <= 57 ==> hex_digit(b) == Some((b - 48) as u8),
        97 <= b <= 102 ==> hex_digit(b) == Some((b - 87) as u8),
        65 <= b <= 70 ==> hex_digit(b) == Some((b - 55) as u8),
        hex_digit(b) is Some <==> (48 <= b <= 57 || 97 <= b <= 102 || 65 <= b <= 70),
{
}

/// A percent escape (`%`, byte 37) written with any two hexadecimal digits,
/// upper or lower case, is decoded to the byte they write.
pub proof fn lemma_escape_decoded(b: Seq<u8>)
    requires
        b.len() > 2,
        b[0] == 37,
        48 <= b[1] <= 57 || 97 <= b[1] <= 102 || 65 <= b[1] <= 70,
        48 <= b[2] <= 57 || 97 <= b[2] <= 102 || 65 <= b[2] <= 70,
    ensures
        ({
            let hi = if b[1] <= 57 { b[1] - 48 } else if b[1] <= 70 { b[1] - 55 } else { b[1] - 87 };
            let lo = if b[2] <= 57 { b[2] - 48 } else if b[2] <= 70 { b[2] - 55 } else { b[2] - 87 };
            &&& pct_changed(b)
            &&& pct_out(b) == seq![(hi * 16 + lo) as u8] + pct_out(b.skip(3))
        }),
{
    lemma_hex_digits(b[1]);
    lemma_hex_digits(b[2]);
}

/// The value of a hexadecimal digit byte.
pub fn hex_value(byte: u8) -> (r: Option<u8>)
    ensures
        r == hex_digit(byte),
{
    if 48 <= byte && byte <= 57 {
        Some(byte - 48)
    } else if 97 <= byte && byte <= 102 {
        Some(byte - 97 + 10)
    } else if 65 <= byte && byte <= 70 {
        Some(byte - 65 + 10)
    } else {
        None
    }
}

proof fn lemma_no_percent_unchanged(b: Seq<u8>)
    requires
        !b.contains(37u8),
    ensures
        !pct_changed(b),
    decreases b.len(),
{
    if b.len() > 0 {
        assert(b[0] != 37u8) by {
            if b[0] == 37u8 {
                assert(b.contains(37u8));
            }
        }
        assert forall|x: u8| b.skip(1).contains(x) implies b.contains(x) by {
            let k = choose|k: int| 0 <= k < b.skip(1).len() && b.skip(1)[k] == x;
            assert(b[k + 1] == x);
        }
        lemma_no_percent_unchanged(b.skip(1));
    }
}

/// Decodes the percent escapes in `input`; `None` where it holds none, or where
/// the decoded bytes are not UTF-8.
pub fn percent_decode(input: &str) -> (r: Option<String>)
    ensures
        r matches Some(s) ==> percent_decoded(input@) == Some(s@),
        r is None ==> percent_decoded(input@) is None,
{
    let bytes = bytes_of(input);
    let ghost b = bytes@;
    let mut has_percent = false;
    let mut k: usize = 0;
    while k < bytes.len()
        invariant
            b == bytes@,
            k <= bytes.len(),
            has_percent == bytes@.take(k as int).contains(37u8),
        decreases bytes.len() - k,
    {
        if bytes[k] == 37 {
            assert(bytes@.take(k + 1)[k as int] == 37u8);
            has_percent = true;
        }
        proof {
            let ghost prev = has_percent;
            assert(bytes@.take(k + 1) =~= bytes@.take(k as int).push(bytes@[k as int]));
        }
        k = k + 1;
        proof {
            if bytes@.take(k as int).contains(37u8) {
                let j = choose|j: int| 0 <= j < k && bytes@.take(k as int)[j] == 37u8;
                if j < k - 1 {
                    assert(bytes@.take(k - 1)[j] == 37u8);
                }
            }
        }
    }
    assert(bytes@.take(bytes.len() as int) =~= bytes@);
    if !has_percent {
        proof {
            lemma_no_percent_unchanged(b);
        }
        return None;
    }
    let mut output: Vec<u8> = Vec::new();
    let mut changed = false;
    let mut index: usize = 0;
    assert(b.skip(0) =~= b);
    while index < bytes.len()
        invariant
            b == bytes@,
            index <= bytes.len(),
            pct_out(b) == output@ + pct_out(b.skip(index as int)),
            pct_changed(b) == (changed || pct_changed(b.skip(index as int))),
        decreases bytes.len() - index,
    {
        let ghost rest = b.skip(index as int);
        if bytes[index] == 37 && 2 < bytes.len() - index {
            let high = hex_value(bytes[index + 1]);
            let low = hex_value(bytes[index + 2]);
            if let (Some(h), Some(l)) = (high, low) {
                assert(rest[1] == bytes@[index + 1]);
                assert(rest[2] == bytes@[index + 2]);
                assert(is_escape(rest));
                assert((h << 4u8) | l == h * 16 + l) by (bit_vector)
                    requires
                        h < 16,
                        l < 16,
                ;
                output.push((h << 4) | l);
                assert(rest.skip(3) =~= b.skip(index + 3));
                index = index + 3;
                changed = true;
                continue;
            }
        }
        assert(!is_escape(rest));
        assert(rest.skip(1) =~= b.skip(index + 1));
        output.push(bytes[index]);
        index = index + 1;
    }
    assert(output@ =~= pct_out(b));
    if changed {
        string_from_utf8(output)
    } else {
        None
    }
}

/// Turns what the front end sent as a path into a plain path: surrounding white
/// space goes; a `file://` URI or a percent-encoded path that decodes to an
/// absolute path is replaced by the decoded path.
pub fn normalize_path(path: String) -> (r: String)
    ensures
        r@ == normalized(path@),
{
    let chars = chars_of(path.as_str());
    let trimmed = trim_chars(&chars);
    if trimmed.len() == 0 {
        return String::new();
    }
    let long_prefix = chars_of("file://localhost");
    let short_prefix = chars_of("file://");
    let candidate = if chars_start_with(&trimmed, &long_prefix) {
        slice_chars(&trimmed, long_prefix.len(), trimmed.len())
    } else if chars_start_with(&trimmed, &short_prefix) {
        slice_chars(&trimmed, short_prefix.len(), trimmed.len())
    } else {
        slice_chars(&trimmed, 0, trimmed.len())
    };
    assert(trimmed@.subrange(0, trimmed.len() as int) =~= trimmed@);
    let candidate_str = string_of(&candidate);
    let decoded = match percent_decode(candidate_str.as_str()) {
        Some(d) => d,
        None => candidate_str,
    };
    let decoded_chars = chars_of(decoded.as_str());
    if decoded_chars.len() > 0 && decoded_chars[0] == '/' {
        decoded
    } else {
        string_of(&trimmed)
    }
}

/// Keys whose value, in a command's parameters, is a single path.
pub open spec fn single_path_key(key: Seq<char>) -> bool {
    ||| key == "path"@
    ||| key == "mountPoint"@
    ||| key == "mount_point"@
    ||| key == "destination"@
    ||| key == "root"@
    ||| key == "filePath"@
    ||| key == "file_path"@
    ||| key == "trashPath"@
    ||| key == "trash_path"@
    ||| key == "originalPath"@
    ||| key == "original_path"@
}

/// Keys whose value, in a command's parameters, is a list of paths.
pub open spec fn path_list_key(key: Seq<char>) -> bool {
    ||| key == "paths"@
    ||| key == "sources"@
    ||| key == "files"@
    ||| key == "recentPaths"@
    ||| key == "recent_paths"@
}

/// Whether `key` names a single path.
pub fn is_single_path_key(key: &str) -> (r: bool)
    ensures
        r == single_path_key(key@),
{
    str_eq(key, "path") || str_eq(key, "mountPoint") || str_eq(key, "mount_point") || str_eq(
        key,
        "destination",
    ) || str_eq(key, "root") || str_eq(key, "filePath") || str_eq(key, "file_path") || str_eq(
        key,
        "trashPath",
    ) || str_eq(key, "trash_path") || str_eq(key, "originalPath") || str_eq(
        key,
        "original_path",
    )
}

/// Whether `key` names a list of paths.
pub fn is_path_list_key(key: &str) -> (r: bool)
    ensures
        r == path_list_key(key@),
{
    str_eq(key, "paths") || str_eq(key, "sources") || str_eq(key, "files") || str_eq(
        key,
        "recentPaths",
    ) || str_eq(key, "recent_paths")
}


/// `b` is `a` with every path in it normalised: the string value of a member
/// whose key names a single path, and each string in the array of a member
/// whose key names a list of paths. Everything else keeps its shape, at any
/// depth.
pub open spec fn json_normalized(a: JsonValue, b: JsonValue) -> bool
    decreases a, 1int,
{
    match a {
        JsonValue::Array(xs) => match b {
            JsonValue::Array(ys) => {
                &&& ys@.len() == xs@.len()
                &&& forall|i: int| 0 <= i < xs@.len() ==> json_normalized(xs@[i], ys@[i])
            },
            _ => false,
        },
        JsonValue::Object(ms) => match b {
            JsonValue::Object(ns) => {
                &&& ns@.len() == ms@.len()
                &&& forall|i: int|
                    0 <= i < ms@.len() ==> ns@[i].0 == ms@[i].0 && member_normalized(
                        ms@[i].0@,
                        ms@[i].1,
                        ns@[i].1,
                    )
            },
            _ => false,
        },
        _ => b == a,
    }
}

/// `w` is what the value `v` of a member under `key` becomes.
pub open spec fn member_normalized(key: Seq<char>, v: JsonValue, w: JsonValue) -> bool
    decreases v, 2int,
{
    match v {
        JsonValue::Str(p) => if single_path_key(key) {
            w matches JsonValue::Str(q) && q@ == normalized(p@)
        } else {
            w == v
        },
        JsonValue::Array(items) => if path_list_key(key) {
            match w {
                JsonValue::Array(zs) => {
                    &&& zs@.len() == items@.len()
                    &&& forall|i: int|
                        0 <= i < items@.len() ==> match #[trigger] items@[i] {
                            JsonValue::Str(p) => zs@[i] matches JsonValue::Str(q) && q@
                                == normalized(p@),
                            _ => json_normalized(items@[i], zs@[i]),
                        }
                },
                _ => false,
            }
        } else {
            json_normalized(v, w)
        },
        _ => json_normalized(v, w),
    }
}

fn normalize_value(value: JsonValue) -> (r: JsonValue)
    ensures
        json_normalized(value, r),
    decreases value, 1int,
{
    match value {
        JsonValue::Array(items) => {
            let ghost orig = items@;
            let mut items = items;
            let mut i: usize = 0;
            while i < items.len()
                invariant
                    items@.len() == orig.len(),
                    i <= items.len(),
                    forall|j: int| 0 <= j < i ==> json_normalized(orig[j], #[trigger] items@[j]),
                    forall|j: int| i <= j < items@.len() ==> #[trigger] items@[j] == orig[j],
                    forall|j: int| 0 <= j < orig.len() ==> decreases_to!(value => #[trigger] orig[j]),
                decreases items.len() - i,
            {
                let mut item = JsonValue::Null;
                items.set_and_swap(i, &mut item);
                assert(item == orig[i as int]);
                let done = normalize_value(item);
                items.set(i, done);
                i = i + 1;
            }
            JsonValue::Array(items)
        },
        JsonValue::Object(members) => {
            let ghost orig = members@;
            let mut members = members;
            let mut i: usize = 0;
            while i < members.len()
                invariant
                    members@.len() == orig.len(),
                    i <= members.len(),
                    forall|j: int|
                        0 <= j < i ==> (#[trigger] members@[j]).0 == orig[j].0 && member_normalized(
                            orig[j].0@,
                            orig[j].1,
                            members@[j].1,
                        ),
                    forall|j: int| i <= j < members@.len() ==> #[trigger] members@[j] == orig[j],
                    forall|j: int| 0 <= j < orig.len() ==> decreases_to!(value => #[trigger] orig[j].1),
                decreases members.len() - i,
            {
                let mut entry = (String::new(), JsonValue::Null);
                members.set_and_swap(i, &mut entry);
                assert(entry == orig[i as int]);
                let (key, v) = entry;
                let done = normalize_member(key.as_str(), v);
                members.set(i, (key, done));
                i = i + 1;
            }
            JsonValue::Object(members)
        },
        other => other,
    }
}

fn normalize_member(key: &str, v: JsonValue) -> (r: JsonValue)
    ensures
        member_normalized(key@, v, r),
    decreases v, 2int,
{
    match v {
        JsonValue::Str(p) => {
            if is_single_path_key(key) {
                JsonValue::Str(normalize_path(p))
            } else {
                JsonValue::Str(p)
            }
        },
        JsonValue::Array(items) => {
            if !is_path_list_key(key) {
                return normalize_value(JsonValue::Array(items));
            }
            let ghost orig = items@;
            let mut items = items;
            let mut i: usize = 0;
            while i < items.len()
                invariant
                    items@.len() == orig.len(),
                    i <= items.len(),
                    forall|j: int|
                        0 <= j < i ==> match #[trigger] orig[j] {
                            JsonValue::Str(p) => items@[j] matches JsonValue::Str(q) && q@
                                == normalized(p@),
                            _ => json_normalized(orig[j], items@[j]),
                        },
                    forall|j: int| i <= j < items@.len() ==> #[trigger] items@[j] == orig[j],
                    forall|j: int| 0 <= j < orig.len() ==> decreases_to!(v => #[trigger] orig[j]),
                decreases items.len() - i,
            {
                let mut item = JsonValue::Null;
                items.set_and_swap(i, &mut item);
                assert(item == orig[i as int]);
                let done = match item {
                    JsonValue::Str(p) => JsonValue::Str(normalize_path(p)),
                    other => normalize_value(other),
                };
                items.set(i, done);
                i = i + 1;
            }
            JsonValue::Array(items)
        },
        other => normalize_value(other),
    }
}

/// Normalises, at any depth of `value`, the paths that command parameters hold:
/// the string under a key that names a single path, and the strings in the
/// array under a key that names a list of paths.
pub fn normalize_json_paths(value: &mut JsonValue)
    ensures
        json_normalized(*old(value), *final(value)),
{
    let mut taken = JsonValue::Null;
    core::mem::swap(value, &mut taken);
    let done = normalize_value(taken);
    *value = done;
}


/// Normalises every path that `settings` hold: the folders of the per-folder
/// view modes (a later folder wins where two normalise alike), the favourites,
/// the pinned folders and the recent paths.
pub fn normalize_settings(settings: &mut Settings)
    ensures
        settings_normalized(*old(settings), *final(settings)),
{
    let done = normalized_copy(settings);
    *settings = done;
}

} // verus!
