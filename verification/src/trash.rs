//! The trash, as the freedesktop.org trash specification lays it out: the
//! trash directories, the `.trashinfo` record of each trashed file, the
//! listing newest first, and which directories an emptying clears.
use vstd::prelude::*;
use crate::order::{irreflexive, lemma_insert_sorted, sorted_by, transitive};
use crate::paths::{file_name, join, parent, path_file_name, path_join, path_parent, path_same, same_path};
use crate::text::{
    bytes_of, chars_list_view, chars_of, concat, lines, lines_of, lossy_utf8, starts_with, str_eq, string_from_utf8_lossy,
    string_of,
};
use vstd::utf8::{decode_utf8, encode_scalar, encode_utf8, encode_utf8_decode_utf8, encode_utf8_valid_utf8, valid_utf8};
use crate::operations_queue::{decimal, decimal_string};

verus! {

broadcast use vstd::string::group_string_axioms;

/// A trash directory: the home trash or one on a drive.
pub struct TrashLocation {
    pub id: String,
    pub name: String,
    pub path: String,
}

/// A trashed file or directory.
pub struct TrashItem {
    pub id: String,
    pub name: String,
    pub original_path: String,
    pub trash_path: String,
    pub trash_name: String,
    pub deleted_at: i64,
    pub size: u64,
    pub is_dir: bool,
}

/// Everything in the trash, newest first, with its count and size, and the
/// trash directories.
pub struct TrashContents {
    pub items: Vec<TrashItem>,
    pub total_items: usize,
    pub total_size: u64,
    pub locations: Vec<TrashLocation>,
}

/// The value of `c` as a hexadecimal digit.
pub open spec fn hex_value_of(c: char) -> Option<u8> {
    if '0' <= c && c <= '9' {
        Some((c as u32 - 48) as u8)
    } else if 'a' <= c && c <= 'f' {
        Some((c as u32 - 87) as u8)
    } else if 'A' <= c && c <= 'F' {
        Some((c as u32 - 55) as u8)
    } else {
        None
    }
}

/// Every hexadecimal digit character, in either case, stands for its value,
/// and no other character is one.
pub proof fn lemma_hex_chars(c: char)
    ensures
        '0' <= c <= '9' ==> hex_value_of(c) == Some((c as u32 - 48) as u8),
        'a' <= c <= 'f' ==> hex_value_of(c) == Some((c as u32 - 87) as u8),
        'A' <= c <= 'F' ==> hex_value_of(c) == Some((c as u32 - 55) as u8),
        hex_value_of(c) is Some <==> ('0' <= c <= '9' || 'a' <= c <= 'f' || 'A' <= c <= 'F'),
{
}

/// The byte that the two characters after a `%` write in hexadecimal, as
/// `u8::from_str_radix` reads them: two hexadecimal digits, or a `+` and one.
pub open spec fn escape_value(h: Seq<char>) -> Option<u8> {
    if h.len() != 2 {
        None
    } else if h[0] == '+' {
        hex_value_of(h[1])
    } else {
        match (hex_value_of(h[0]), hex_value_of(h[1])) {
            (Some(a), Some(b)) => Some((a * 16 + b) as u8),
            _ => None,
        }
    }
}

/// The bytes that `s` stands for: each `%` escape becomes the byte it
/// writes; every other character, and a `%` that no byte follows together
/// with the (at most two) characters after it, stands for its UTF-8 bytes.
pub open spec fn url_decoded_bytes(s: Seq<char>) -> Seq<u8>
    decreases s.len(),
{
    if s.len() == 0 {
        Seq::empty()
    } else if s[0] == '%' {
        let n = if s.len() >= 3 { 2int } else { s.len() - 1 };
        let hex = s.subrange(1, 1 + n);
        match escape_value(hex) {
            Some(b) => seq![b] + url_decoded_bytes(s.skip(3)),
            None => encode_utf8(seq!['%'] + hex) + url_decoded_bytes(s.skip(1 + n)),
        }
    } else {
        encode_utf8(seq![s[0]]) + url_decoded_bytes(s.drop_first())
    }
}

/// The text that the percent-encoded path `s` stands for: its decoded bytes
/// read as UTF-8, with invalid sequences replaced as `String::from_utf8_lossy`
/// replaces them.
pub open spec fn url_decoded(s: Seq<char>) -> Seq<char> {
    let b = url_decoded_bytes(s);
    if valid_utf8(b) {
        decode_utf8(b)
    } else {
        lossy_utf8(b)
    }
}

proof fn lemma_encode_one(c: char, rest: Seq<char>)
    ensures
        encode_utf8(seq![c]) + encode_utf8(rest) == encode_utf8(seq![c] + rest),
{
    let s = seq![c] + rest;
    assert(s.drop_first() =~= rest);
    assert(s[0] == c);
    assert(seq![c].drop_first() =~= Seq::<char>::empty());
    assert(encode_utf8(seq![c]) =~= encode_scalar(c as u32) + encode_utf8(Seq::<char>::empty()));
    assert(encode_utf8(Seq::<char>::empty()) =~= Seq::<u8>::empty());
}

/// Decoding text without a `%` changes nothing.
pub proof fn lemma_decode_plain(s: Seq<char>)
    requires
        forall|i: int| 0 <= i < s.len() ==> s[i] != '%',
    ensures
        url_decoded(s) == s,
{
    lemma_plain_bytes(s);
    encode_utf8_valid_utf8(s);
    encode_utf8_decode_utf8(s);
}

proof fn lemma_plain_bytes(s: Seq<char>)
    requires
        forall|i: int| 0 <= i < s.len() ==> s[i] != '%',
    ensures
        url_decoded_bytes(s) == encode_utf8(s),
    decreases s.len(),
{
    if s.len() > 0 {
        lemma_plain_bytes(s.drop_first());
        lemma_encode_one(s[0], s.drop_first());
        assert(seq![s[0]] + s.drop_first() =~= s);
    }
}

fn hex_char_value(c: char) -> (r: Option<u8>)
    ensures
        r == hex_value_of(c),
{
    if '0' <= c && c <= '9' {
        Some((c as u32 - 48) as u8)
    } else if 'a' <= c && c <= 'f' {
        Some((c as u32 - 87) as u8)
    } else if 'A' <= c && c <= 'F' {
        Some((c as u32 - 55) as u8)
    } else {
        None
    }
}

fn escape_byte(a: char, b: char) -> (r: Option<u8>)
    ensures
        r == escape_value(seq![a, b]),
{
    if a == '+' {
        return hex_char_value(b);
    }
    match (hex_char_value(a), hex_char_value(b)) {
        (Some(x), Some(y)) => Some(x * 16 + y),
        _ => None,
    }
}

/// Appends the UTF-8 bytes of the characters `cs` to `out`.
fn push_encoded(out: &mut Vec<u8>, cs: &Vec<char>)
    ensures
        final(out)@ == old(out)@ + encode_utf8(cs@),
{
    let text = string_of(cs);
    let mut bytes = bytes_of(text.as_str());
    out.append(&mut bytes);
}

/// Decodes the `%` escapes of a path in a `.trashinfo` record: the escaped
/// bytes and the UTF-8 bytes of the other characters, read as UTF-8.
pub fn urlencoding_decode(s: &str) -> (r: String)
    ensures
        r@ == url_decoded(s@),
{
    let cs = chars_of(s);
    let mut out: Vec<u8> = Vec::new();
    let mut i: usize = 0;
    assert(cs@.skip(0) =~= cs@);
    while i < cs.len()
        invariant
            i <= cs.len(),
            cs@ == s@,
            out@ + url_decoded_bytes(cs@.skip(i as int)) == url_decoded_bytes(s@),
        decreases cs.len() - i,
    {
        let ghost t = cs@.skip(i as int);
        let c = cs[i];
        assert(t[0] == c);
        if c == '%' {
            let n: usize = if cs.len() - i >= 3 { 2 } else { cs.len() - i - 1 };
            let ghost hex = t.subrange(1, 1 + n);
            assert(hex =~= cs@.subrange(i + 1, i + 1 + n));
            let decoded = if n == 2 {
                assert(hex =~= seq![cs@[i + 1], cs@[i + 2]]);
                escape_byte(cs[i + 1], cs[i + 2])
            } else {
                None
            };
            match decoded {
                Some(b) => {
                    assert(t.skip(3) =~= cs@.skip(i + 3));
                    out.push(b);
                    proof {
                        assert(out@ + url_decoded_bytes(cs@.skip(i + 3)) =~= url_decoded_bytes(s@)) by {
                            assert((seq![b] + url_decoded_bytes(t.skip(3))) == url_decoded_bytes(t));
                        }
                    }
                    i = i + 3;
                },
                None => {
                    let ghost before = out@;
                    let mut piece: Vec<char> = Vec::new();
                    piece.push('%');
                    let mut k: usize = 0;
                    while k < n
                        invariant
                            k <= n,
                            i + 1 + n <= cs.len(),
                            piece@ == seq!['%'] + cs@.subrange(i + 1, i + 1 + k),
                        decreases n - k,
                    {
                        piece.push(cs[i + 1 + k]);
                        k = k + 1;
                        assert(piece@ =~= seq!['%'] + cs@.subrange(i + 1, i + 1 + k));
                    }
                    push_encoded(&mut out, &piece);
                    assert(t.skip(1 + n) =~= cs@.skip(i + 1 + n));
                    assert(piece@ == seq!['%'] + hex);
                    assert(url_decoded_bytes(t) == encode_utf8(seq!['%'] + hex) + url_decoded_bytes(t.skip(1 + n)));
                    assert(out@ + url_decoded_bytes(cs@.skip(i + 1 + n)) =~= before + url_decoded_bytes(t));
                    i = i + 1 + n;
                },
            }
        } else {
            let ghost before = out@;
            let mut piece: Vec<char> = Vec::new();
            piece.push(c);
            assert(piece@ =~= seq![c]);
            push_encoded(&mut out, &piece);
            assert(t.drop_first() =~= cs@.skip(i + 1));
            assert(url_decoded_bytes(t) == encode_utf8(seq![c]) + url_decoded_bytes(t.drop_first()));
            assert(out@ + url_decoded_bytes(cs@.skip(i + 1)) =~= before + url_decoded_bytes(t));
            i = i + 1;
        }
    }
    assert(cs@.skip(i as int) =~= Seq::<char>::empty());
    assert(out@ + Seq::<u8>::empty() =~= out@);
    string_from_utf8_lossy(out.as_slice())
}

/// What `NaiveDateTime::parse_from_str` makes of `text` read with `format`,
/// as seconds since the Unix epoch in UTC.
pub uninterp spec fn naive_timestamp(text: Seq<char>, format: Seq<char>) -> Option<i64>;

/// Reads the date and time `text` written as `format` and gives the seconds
/// since the Unix epoch, taking it as UTC (`chrono`'s
/// `NaiveDateTime::parse_from_str`, then `and_utc().timestamp()`). Its result
/// is named `naive_timestamp`; the format rules are not restated.
#[verifier::external_body]
fn parse_timestamp(text: &str, format: &str) -> (r: Option<i64>)
    ensures
        r == naive_timestamp(text@, format@),
{
    chrono::NaiveDateTime::parse_from_str(text, format).ok().map(|dt| dt.and_utc().timestamp())
}

/// The format of the `DeletionDate` of a `.trashinfo` record.
pub open spec fn deletion_date_format() -> Seq<char> {
    "%Y-%m-%dT%H:%M:%S"@
}

/// What the lines `ls` of a `.trashinfo` record say: the decoded original
/// path of the last `Path=` line and the time of the last `DeletionDate=`
/// line that can be read.
pub open spec fn trashinfo_fields(ls: Seq<Seq<char>>) -> (Option<Seq<char>>, Option<i64>)
    decreases ls.len(),
{
    if ls.len() == 0 {
        (None, None)
    } else {
        let (p, d) = trashinfo_fields(ls.drop_last());
        let line = ls.last();
        if starts_with(line, "Path="@) {
            (Some(url_decoded(line.skip(5))), d)
        } else if starts_with(line, "DeletionDate="@) {
            match naive_timestamp(line.skip(13), deletion_date_format()) {
                Some(t) => (p, Some(t)),
                None => (p, d),
            }
        } else {
            (p, d)
        }
    }
}

/// The original path and the deletion time that a `.trashinfo` record
/// `content` gives; a record without a path gives nothing, one without a
/// readable date gives time 0.
pub open spec fn trashinfo_spec(content: Seq<char>) -> Option<(Seq<char>, i64)> {
    let (p, d) = trashinfo_fields(lines(content));
    match p {
        Some(path) => Some(
            (
                path,
                match d {
                    Some(t) => t,
                    None => 0,
                },
            ),
        ),
        None => None,
    }
}

/// The original path and deletion time of a trashed file, from the content of
/// its `.trashinfo` record.
pub fn parse_trashinfo(content: &str) -> (r: Option<(String, i64)>)
    ensures
        match r {
            Some((p, t)) => trashinfo_spec(content@) == Some((p@, t)),
            None => trashinfo_spec(content@) is None,
        },
{
    let ls = lines_of(&chars_of(content));
    let ghost l = chars_list_view(ls@);
    let mut original_path: Option<String> = None;
    let mut deletion_date: Option<i64> = None;
    let path_key = chars_of("Path=");
    let date_key = chars_of("DeletionDate=");
    proof {
        reveal_strlit("Path=");
        reveal_strlit("DeletionDate=");
    }
    let mut i: usize = 0;
    assert(l.take(0) =~= Seq::<Seq<char>>::empty());
    while i < ls.len()
        invariant
            i <= ls.len(),
            l == chars_list_view(ls@),
            l == lines(content@),
            path_key@ == "Path="@,
            date_key@ == "DeletionDate="@,
            path_key@.len() == 5,
            date_key@.len() == 13,
            ({
                let (p, d) = trashinfo_fields(l.take(i as int));
                &&& match original_path {
                    Some(s) => p == Some(s@),
                    None => p is None,
                }
                &&& d == deletion_date
            }),
        decreases ls.len() - i,
    {
        let line = &ls[i];
        assert(l.take(i + 1).drop_last() =~= l.take(i as int));
        assert(l.take(i + 1).last() == line@);
        if crate::text::chars_start_with(line, &path_key) {
            let rest = crate::text::slice_chars(line, 5, line.len());
            assert(rest@ =~= line@.skip(5));
            original_path = Some(urlencoding_decode(string_of(&rest).as_str()));
        } else if crate::text::chars_start_with(line, &date_key) {
            let rest = crate::text::slice_chars(line, 13, line.len());
            assert(rest@ =~= line@.skip(13));
            let when = parse_timestamp(string_of(&rest).as_str(), "%Y-%m-%dT%H:%M:%S");
            match when {
                Some(t) => {
                    deletion_date = Some(t);
                },
                None => {},
            }
        }
        i = i + 1;
    }
    assert(l.take(ls.len() as int) =~= l);
    match original_path {
        Some(p) => Some(
            (
                p,
                match deletion_date {
                    Some(t) => t,
                    None => 0,
                },
            ),
        ),
        None => None,
    }
}

/// Where a trash directory holds the record of the trashed file `name`.
pub open spec fn info_file_spec(trash_path: Seq<char>, name: Seq<char>) -> Seq<char> {
    path_join(path_join(trash_path, "info"@), name + ".trashinfo"@)
}

/// The `.trashinfo` record of the trashed file `name` in the trash directory
/// `trash_path`.
pub fn info_file_path(trash_path: &str, name: &str) -> (r: String)
    ensures
        r@ == info_file_spec(trash_path@, name@),
{
    let info = join(trash_path, "info");
    let file = concat(name, ".trashinfo");
    join(info.as_str(), file.as_str())
}

/// The entry for the trashed file at `entry_path`, named `name`, in the trash
/// directory `location`, with its size, its kind and what its `.trashinfo`
/// record says; without a record its original path is where it lies, deleted
/// at time 0.
pub open spec fn trash_item_spec(
    location: TrashLocation,
    name: String,
    entry_path: String,
    size: u64,
    is_dir: bool,
    info: Option<(String, i64)>,
) -> TrashItem {
    TrashItem {
        id: entry_path,
        name,
        original_path: match info {
            Some((p, _)) => p,
            None => entry_path,
        },
        trash_path: location.path,
        trash_name: location.name,
        deleted_at: match info {
            Some((_, t)) => t,
            None => 0,
        },
        size,
        is_dir,
    }
}

/// The entry for the trashed file at `entry_path`, named `name`, in the trash
/// directory `location` (see `trash_item_spec`).
pub fn trash_item_from_entry(
    location: &TrashLocation,
    name: String,
    entry_path: String,
    size: u64,
    is_dir: bool,
    info: Option<(String, i64)>,
) -> (r: TrashItem)
    ensures
        r == trash_item_spec(*location, name, entry_path, size, is_dir, info),
        r.id@ == entry_path@,
        r.name == name,
        r.trash_path@ == location.path@,
        r.trash_name@ == location.name@,
        r.size == size,
        r.is_dir == is_dir,
        match info {
            Some((p, t)) => r.original_path == p && r.deleted_at == t,
            None => r.original_path@ == entry_path@ && r.deleted_at == 0,
        },
{
    let (original_path, deleted_at) = match info {
        Some((p, t)) => (p, t),
        None => (entry_path.clone(), 0),
    };
    TrashItem {
        id: entry_path,
        name,
        original_path,
        trash_path: location.path.clone(),
        trash_name: location.name.clone(),
        deleted_at,
        size,
        is_dir,
    }
}

/// The sum of the sizes of `items`.
pub open spec fn total_size_of(items: Seq<TrashItem>) -> int
    decreases items.len(),
{
    if items.len() == 0 {
        0
    } else {
        total_size_of(items.drop_last()) + items.last().size
    }
}

proof fn lemma_total_size_prefix(items: Seq<TrashItem>, i: int)
    requires
        0 <= i <= items.len(),
    ensures
        0 <= total_size_of(items.take(i)) <= total_size_of(items),
    decreases items.len() - i,
{
    if i < items.len() {
        lemma_total_size_prefix(items, i + 1);
        assert(items.take(i + 1).drop_last() =~= items.take(i));
        assert(items.take(i + 1).last() == items[i]);
        lemma_total_size_nonneg(items.take(i));
        assert(total_size_of(items.take(i + 1)) == total_size_of(items.take(i)) + items[i].size);
    } else {
        assert(items.take(i) =~= items);
        lemma_total_size_nonneg(items);
    }
}

proof fn lemma_total_size_insert(items: Seq<TrashItem>, p: int, x: TrashItem)
    requires
        0 <= p <= items.len(),
    ensures
        total_size_of(items.insert(p, x)) == total_size_of(items) + x.size,
    decreases items.len(),
{
    if p == items.len() {
        assert(items.insert(p, x).drop_last() =~= items);
    } else {
        let t = items.insert(p, x);
        assert(t.drop_last() =~= items.drop_last().insert(p, x));
        assert(t.last() == items.last());
        lemma_total_size_insert(items.drop_last(), p, x);
    }
}

proof fn lemma_total_size_nonneg(items: Seq<TrashItem>)
    ensures
        0 <= total_size_of(items),
    decreases items.len(),
{
    if items.len() > 0 {
        lemma_total_size_nonneg(items.drop_last());
    }
}

/// `a` was trashed after `b`.
pub open spec fn deleted_later(a: TrashItem, b: TrashItem) -> bool {
    a.deleted_at > b.deleted_at
}

/// Trashed items ordered for the listing: most recently deleted first, with
/// their count and total size, beside the trash directories `locations`.
pub fn sorted_trash_contents(items: Vec<TrashItem>, locations: Vec<TrashLocation>) -> (r: TrashContents)
    requires
        total_size_of(items@) <= u64::MAX,
    ensures
        r.items@.to_multiset() == items@.to_multiset(),
        sorted_by(r.items@, |a: TrashItem, b: TrashItem| deleted_later(a, b)),
        r.total_items == items.len(),
        r.total_size == total_size_of(items@),
        r.total_size == total_size_of(r.items@),
        r.locations == locations,
{
    let ghost lt = |a: TrashItem, b: TrashItem| deleted_later(a, b);
    let ghost src = items@;
    let mut rest = items;
    let n0 = rest.len();
    let mut out: Vec<TrashItem> = Vec::new();
    let mut total: u64 = 0;
    let mut i: usize = 0;
    assert(transitive(lt));
    assert(irreflexive(lt));
    assert(src.take(0) =~= Seq::<TrashItem>::empty());
    while rest.len() > 0
        invariant
            i + rest.len() == src.len(),
            src.len() == n0,
            rest@ == src.skip(i as int),
            lt == (|a: TrashItem, b: TrashItem| deleted_later(a, b)),
            transitive(lt),
            irreflexive(lt),
            sorted_by(out@, lt),
            out@.to_multiset() == src.take(i as int).to_multiset(),
            total == total_size_of(src.take(i as int)),
            total == total_size_of(out@),
            total_size_of(src) <= u64::MAX,
        decreases rest.len(),
    {
        let x = rest.remove(0);
        assert(x == src[i as int]);
        proof {
            lemma_total_size_prefix(src, i + 1);
            assert(src.take(i + 1).drop_last() =~= src.take(i as int));
        }
        total = total + x.size;
        let mut p: usize = 0;
        while p < out.len() && !(x.deleted_at > out[p].deleted_at)
            invariant
                p <= out.len(),
                forall|k: int| 0 <= k < p ==> !lt(x, #[trigger] out@[k]),
                lt == (|a: TrashItem, b: TrashItem| deleted_later(a, b)),
            decreases out.len() - p,
        {
            p = p + 1;
        }
        proof {
            lemma_insert_sorted(out@, x, p as int, lt);
            lemma_total_size_insert(out@, p as int, x);
        }
        let ghost before = out@;
        out.insert(p, x);
        proof {
            assert(src.take(i + 1) =~= src.take(i as int).push(src[i as int]));
            broadcast use vstd::seq_lib::group_to_multiset_ensures;
            assert(rest@ =~= src.skip(i + 1));
        }
        i = i + 1;
    }
    assert(src.take(i as int) =~= src);
    let n = out.len();
    proof {
        broadcast use vstd::seq_lib::group_to_multiset_ensures;
        assert(out@.to_multiset().len() == out@.len());
        assert(src.to_multiset().len() == src.len());
    }
    TrashContents { items: out, total_items: n, total_size: total, locations }
}

/// A file found in the `files` directory of the trash directory numbered
/// `location`, with its size, its kind and what its `.trashinfo` record says.
pub struct TrashEntry {
    pub location: usize,
    pub name: String,
    pub entry_path: String,
    pub size: u64,
    pub is_dir: bool,
    pub info: Option<(String, i64)>,
}

/// The sum of the sizes of `entries`.
pub open spec fn entries_size(entries: Seq<TrashEntry>) -> int
    decreases entries.len(),
{
    if entries.len() == 0 {
        0
    } else {
        entries_size(entries.drop_last()) + entries.last().size
    }
}

/// The items that the trash entries `es` give: one for each entry that lies in
/// one of the trash directories `locs`, in the order of the entries.
pub open spec fn entries_items(es: Seq<TrashEntry>, locs: Seq<TrashLocation>) -> Seq<TrashItem>
    decreases es.len(),
{
    if es.len() == 0 {
        Seq::empty()
    } else {
        let prev = entries_items(es.drop_last(), locs);
        let e = es.last();
        if e.location < locs.len() {
            prev.push(trash_item_spec(locs[e.location as int], e.name, e.entry_path, e.size, e.is_dir, e.info))
        } else {
            prev
        }
    }
}

/// `item` is the listing of the trash entry `e`.
pub open spec fn item_of_entry(item: TrashItem, e: TrashEntry) -> bool {
    &&& item.id@ == e.entry_path@
    &&& item.name == e.name
    &&& item.size == e.size
    &&& item.is_dir == e.is_dir
    &&& match e.info {
        Some((p, t)) => item.original_path == p && item.deleted_at == t,
        None => item.original_path@ == e.entry_path@ && item.deleted_at == 0,
    }
}

/// How many of `entries` lie in one of the first `n` trash directories.
pub open spec fn listed_count(entries: Seq<TrashEntry>, n: int) -> int
    decreases entries.len(),
{
    if entries.len() == 0 {
        0
    } else {
        listed_count(entries.drop_last(), n) + if entries.last().location < n {
            1int
        } else {
            0
        }
    }
}

/// The sum of the sizes of those of `entries` that lie in one of the first
/// `n` trash directories.
pub open spec fn listed_size(entries: Seq<TrashEntry>, n: int) -> int
    decreases entries.len(),
{
    if entries.len() == 0 {
        0
    } else {
        listed_size(entries.drop_last(), n) + if entries.last().location < n {
            entries.last().size as int
        } else {
            0
        }
    }
}

proof fn lemma_listed_size_bound(entries: Seq<TrashEntry>, n: int)
    ensures
        0 <= listed_size(entries, n) <= entries_size(entries),
    decreases entries.len(),
{
    if entries.len() > 0 {
        lemma_listed_size_bound(entries.drop_last(), n);
    }
}

proof fn lemma_entries_size_nonneg(entries: Seq<TrashEntry>)
    ensures
        0 <= entries_size(entries),
    decreases entries.len(),
{
    if entries.len() > 0 {
        lemma_entries_size_nonneg(entries.drop_last());
    }
}

proof fn lemma_entries_size_prefix(entries: Seq<TrashEntry>, i: int)
    requires
        0 <= i <= entries.len(),
    ensures
        entries_size(entries.take(i)) <= entries_size(entries),
    decreases entries.len() - i,
{
    if i < entries.len() {
        lemma_entries_size_prefix(entries, i + 1);
        assert(entries.take(i + 1).drop_last() =~= entries.take(i));
    } else {
        assert(entries.take(i) =~= entries);
    }
}

/// The trash as the file manager lists it: the trash directories (the home
/// trash `home_trash` first, then each of `drive_trashes` not listed yet) and
/// the items of `entries` that lie in one of them, most recently deleted
/// first, with their count and total size. Each item lies in one of the
/// listed directories, which are all different.
pub fn list_trash(home_trash: String, drive_trashes: Vec<(String, String)>, entries: Vec<TrashEntry>) -> (r: TrashContents)
    requires
        entries_size(entries@) <= u64::MAX,
    ensures
        paths_unique(r.locations@),
        r.locations@.len() >= 1,
        r.locations@[0].path@ == home_trash@,
        r.locations@[0].name@ == "Home"@,
        lists_all(r.locations@, drive_trashes@, drive_trashes@.len() as int),
        listed_from(r.locations@, drive_trashes@, drive_trashes@.len() as int),
        r.items@.to_multiset() == entries_items(entries@, r.locations@).to_multiset(),
        sorted_by(r.items@, |a: TrashItem, b: TrashItem| deleted_later(a, b)),
        r.total_items == r.items@.len(),
        r.total_size == total_size_of(r.items@),
        r.total_size == listed_size(entries@, r.locations@.len() as int),
        forall|i: int|
            0 <= i < r.items@.len() ==> exists|k: int|
                0 <= k < r.locations@.len() && (#[trigger] r.items@[i]).trash_path@ == (#[trigger] r.locations@[k]).path@
                    && r.items@[i].trash_name@ == r.locations@[k].name@,
        r.items@.len() == listed_count(entries@, r.locations@.len() as int),
        forall|i: int|
            0 <= i < r.items@.len() ==> exists|j: int|
                0 <= j < entries@.len() && item_of_entry(#[trigger] r.items@[i], #[trigger] entries@[j]),
{
    let locations = trash_locations(home_trash, drive_trashes);
    let ghost locs = locations@;
    let ghost es = entries@;
    let mut items: Vec<TrashItem> = Vec::new();
    let mut rest = entries;
    let n0 = rest.len();
    let mut i: usize = 0;
    proof {
        lemma_entries_size_nonneg(es);
    }
    while rest.len() > 0
        invariant
            i + rest.len() == es.len(),
            es.len() == n0,
            rest@ == es.skip(i as int),
            locations@ == locs,
            total_size_of(items@) == listed_size(es.take(i as int), locs.len() as int),
            items@ == entries_items(es.take(i as int), locs),
            entries_size(es) <= u64::MAX,
            forall|m: int|
                0 <= m < items@.len() ==> exists|k: int|
                    0 <= k < locs.len() && (#[trigger] items@[m]).trash_path@ == (#[trigger] locs[k]).path@
                        && items@[m].trash_name@ == locs[k].name@,
            items@.len() == listed_count(es.take(i as int), locs.len() as int),
            forall|m: int|
                0 <= m < items@.len() ==> exists|j: int|
                    0 <= j < es.len() && item_of_entry(#[trigger] items@[m], #[trigger] es[j]),
        decreases rest.len(),
    {
        let e = rest.remove(0);
        assert(e == es[i as int]);
        proof {
            lemma_entries_size_prefix(es, i + 1);
            assert(es.take(i + 1).drop_last() =~= es.take(i as int));
            assert(es.take(i + 1).last() == e);
            lemma_listed_size_bound(es.take(i + 1), locs.len() as int);
        }
        if e.location < locations.len() {
            let ghost k = e.location as int;
            let ghost j = i as int;
            let item = trash_item_from_entry(&locations[e.location], e.name, e.entry_path, e.size, e.is_dir, e.info);
            let ghost before = items@;
            items.push(item);
            proof {
                assert(items@.drop_last() =~= before);
                assert(items@.last() == item);
                assert(total_size_of(items@) == total_size_of(before) + item.size);
                assert forall|m: int| 0 <= m < items@.len() implies exists|k2: int|
                    0 <= k2 < locs.len() && (#[trigger] items@[m]).trash_path@ == (#[trigger] locs[k2]).path@
                        && items@[m].trash_name@ == locs[k2].name@ by {
                    if m == items@.len() - 1 {
                        assert(items@[m].trash_path@ == locs[k].path@);
                    } else {
                        assert(items@[m] == before[m]);
                    }
                }
                assert forall|m: int| 0 <= m < items@.len() implies exists|j2: int|
                    0 <= j2 < es.len() && item_of_entry(#[trigger] items@[m], #[trigger] es[j2]) by {
                    if m == items@.len() - 1 {
                        assert(item_of_entry(items@[m], es[j]));
                    } else {
                        assert(items@[m] == before[m]);
                    }
                }
            }
        }
        proof {
            assert(rest@ =~= es.skip(i + 1));
        }
        i = i + 1;
    }
    proof {
        assert(es.take(i as int) =~= es);
        lemma_listed_size_bound(es, locs.len() as int);
    }
    let listed = sorted_trash_contents(items, locations);
    proof {
        broadcast use vstd::seq_lib::group_to_multiset_ensures;
        assert forall|m: int| 0 <= m < listed.items@.len() implies exists|k: int|
            0 <= k < listed.locations@.len() && (#[trigger] listed.items@[m]).trash_path@
                == (#[trigger] listed.locations@[k]).path@ && listed.items@[m].trash_name@
                == listed.locations@[k].name@ by {
            let x = listed.items@[m];
            assert(listed.items@.contains(x));
            assert(items@.to_multiset().count(x) > 0);
            assert(items@.contains(x));
            let q = choose|q: int| 0 <= q < items@.len() && items@[q] == x;
            assert(items@[q] == x);
        }
        assert forall|m: int| 0 <= m < listed.items@.len() implies exists|j: int|
            0 <= j < entries@.len() && item_of_entry(#[trigger] listed.items@[m], #[trigger] entries@[j]) by {
            let x = listed.items@[m];
            assert(listed.items@.contains(x));
            assert(items@.to_multiset().count(x) > 0);
            assert(items@.contains(x));
            let q = choose|q: int| 0 <= q < items@.len() && items@[q] == x;
            assert(items@[q] == x);
        }
        assert(listed.items@.to_multiset().len() == listed.items@.len());
        assert(items@.to_multiset().len() == items@.len());
    }
    listed
}

/// Adds the trash directory `path` under `name`, unless it is listed already.
pub fn push_trash_location(locations: &mut Vec<TrashLocation>, name: String, path: String)
    ensures
        final(locations)@ == location_pushed(old(locations)@, name, path),
        if exists|i: int| 0 <= i < old(locations)@.len() && (#[trigger] old(locations)@[i]).path@ == path@ {
            final(locations)@ == old(locations)@
        } else {
            &&& final(locations)@.len() == old(locations)@.len() + 1
            &&& final(locations)@.take(old(locations)@.len() as int) == old(locations)@
            &&& final(locations)@.last().id@ == path@
            &&& final(locations)@.last().path@ == path@
            &&& final(locations)@.last().name == name
        },
{
    let mut i: usize = 0;
    while i < locations.len()
        invariant
            i <= locations.len(),
            locations@ == old(locations)@,
            forall|k: int| 0 <= k < i ==> (#[trigger] locations@[k]).path@ != path@,
        decreases locations.len() - i,
    {
        if str_eq(locations[i].path.as_str(), path.as_str()) {
            return;
        }
        i = i + 1;
    }
    let id = path.clone();
    locations.push(TrashLocation { id, name, path });
    assert(locations@.take(old(locations)@.len() as int) =~= old(locations)@);
}

/// The trash directories `ls` with the directory `path` named `name` added
/// at the end, unless one of them has that path already.
pub open spec fn location_pushed(ls: Seq<TrashLocation>, name: String, path: String) -> Seq<TrashLocation> {
    if exists|i: int| 0 <= i < ls.len() && (#[trigger] ls[i]).path@ == path@ {
        ls
    } else {
        ls.push(TrashLocation { id: path, name, path })
    }
}

/// The trash directories `first`, followed by each of the drive trash
/// directories `d` (name and path) whose path is not listed yet, in order.
pub open spec fn locations_with(first: Seq<TrashLocation>, d: Seq<(String, String)>) -> Seq<TrashLocation>
    decreases d.len(),
{
    if d.len() == 0 {
        first
    } else {
        location_pushed(locations_with(first, d.drop_last()), d.last().0, d.last().1)
    }
}

/// The paths of the trash directories listed, in order.
pub open spec fn location_paths(ls: Seq<TrashLocation>) -> Seq<Seq<char>> {
    ls.map_values(|l: TrashLocation| l.path@)
}

/// No two trash directories share a path.
pub open spec fn paths_unique(ls: Seq<TrashLocation>) -> bool {
    forall|a: int, b: int| 0 <= a < b < ls.len() ==> (#[trigger] ls[a]).path@ != (#[trigger] ls[b]).path@
}

/// Every trash directory after the first is one of the first `n` of `d`.
pub open spec fn listed_from(r: Seq<TrashLocation>, d: Seq<(String, String)>, n: int) -> bool {
    forall|j: int| 1 <= j < r.len() ==> exists|k: int| 0 <= k < n && (#[trigger] r[j]).path@ == (#[trigger] d[k]).1@
}

/// Each of the first `n` of `d` is among the trash directories.
pub open spec fn lists_all(r: Seq<TrashLocation>, d: Seq<(String, String)>, n: int) -> bool {
    forall|k: int| 0 <= k < n ==> exists|j: int| 0 <= j < r.len() && (#[trigger] r[j]).path@ == (#[trigger] d[k]).1@
}

proof fn lemma_locations_step(before: Seq<TrashLocation>, after: Seq<TrashLocation>, d: Seq<(String, String)>, i: int)
    requires
        0 <= i < d.len(),
        before.len() >= 1,
        paths_unique(before),
        lists_all(before, d, i),
        listed_from(before, d, i),
        if exists|j: int| 0 <= j < before.len() && (#[trigger] before[j]).path@ == d[i].1@ {
            after == before
        } else {
            &&& after.len() == before.len() + 1
            &&& after.take(before.len() as int) == before
            &&& after.last().path@ == d[i].1@
        },
    ensures
        paths_unique(after),
        after.len() >= 1,
        after[0] == before[0],
        lists_all(after, d, i + 1),
        listed_from(after, d, i + 1),
{
    if exists|j: int| 0 <= j < before.len() && (#[trigger] before[j]).path@ == d[i].1@ {
    } else {
        let n = before.len() as int;
        assert forall|a: int| 0 <= a < n implies after[a] == before[a] by {
            assert(after.take(n)[a] == after[a]);
        }
        assert forall|a: int, b: int| 0 <= a < b < after.len() implies (#[trigger] after[a]).path@ != (#[trigger] after[b]).path@ by {
            assert(after[a] == before[a]);
            if b < n {
                assert(after[b] == before[b]);
            }
        }
        assert forall|j: int| 1 <= j < after.len() implies exists|k: int| 0 <= k < i + 1 && (#[trigger] after[j]).path@ == (#[trigger] d[k]).1@ by {
            if j < n {
                assert(after[j] == before[j]);
            } else {
                assert(after[j].path@ == d[i].1@);
            }
        }
        assert forall|k: int| 0 <= k < i + 1 implies exists|j: int| 0 <= j < after.len() && (#[trigger] after[j]).path@ == (#[trigger] d[k]).1@ by {
            if k < i {
                let j = choose|j: int| 0 <= j < before.len() && (#[trigger] before[j]).path@ == d[k].1@;
                assert(after[j] == before[j]);
            } else {
                assert(after[n].path@ == d[k].1@);
            }
        }
    }
}

/// The trash directories: the home trash first, then those of the drives,
/// each listed once.
pub fn trash_locations(home_trash: String, drive_trashes: Vec<(String, String)>) -> (r: Vec<TrashLocation>)
    ensures
        paths_unique(r@),
        r@.len() >= 1,
        r@[0].path@ == home_trash@,
        r@[0].name@ == "Home"@,
        r@[0].id == home_trash && r@[0].path == home_trash,
        r@ == locations_with(seq![r@[0]], drive_trashes@),
        lists_all(r@, drive_trashes@, drive_trashes@.len() as int),
        listed_from(r@, drive_trashes@, drive_trashes@.len() as int),
{
    let mut r: Vec<TrashLocation> = Vec::new();
    push_trash_location(&mut r, "Home".to_string(), home_trash);
    let ghost first = r@;
    assert(first =~= seq![r@[0]]);
    let ghost d = drive_trashes@;
    let mut rest = drive_trashes;
    let n0 = rest.len();
    let mut i: usize = 0;
    while rest.len() > 0
        invariant
            i + rest.len() == d.len(),
            d.len() == n0,
            rest@ == d.skip(i as int),
            paths_unique(r@),
            r@.len() >= 1,
            r@[0].path@ == home_trash@,
            r@[0].name@ == "Home"@,
            lists_all(r@, d, i as int),
            listed_from(r@, d, i as int),
            first == seq![r@[0]],
            r@ == locations_with(first, d.take(i as int)),
        decreases rest.len(),
    {
        let (name, path) = rest.remove(0);
        assert((name, path) == d[i as int]);
        let ghost before = r@;
        push_trash_location(&mut r, name, path);
        proof {
            lemma_locations_step(before, r@, d, i as int);
            assert(rest@ =~= d.skip(i + 1));
            assert(d.take(i + 1).drop_last() =~= d.take(i as int));
            assert(d.take(i + 1).last() == d[i as int]);
        }
        i = i + 1;
    }
    assert(d == drive_trashes@);
    assert(d.take(i as int) =~= d);
    r
}

/// The home trash: under `$XDG_DATA_HOME` where it is set, else under the
/// home directory.
pub fn home_trash_path(data_home: Option<String>, home: Option<String>) -> (r: Result<String, String>)
    ensures
        match data_home {
            Some(d) => r matches Ok(p) && p@ == path_join(d@, "Trash"@),
            None => match home {
                Some(h) => r matches Ok(p) && p@ == path_join(h@, ".local/share/Trash"@),
                None => r matches Err(e) && e@ == "Could not get home directory"@,
            },
        },
{
    match data_home {
        Some(d) => Ok(join(d.as_str(), "Trash")),
        None => match home {
            Some(h) => Ok(join(h.as_str(), ".local/share/Trash")),
            None => Err("Could not get home directory".to_string()),
        },
    }
}

/// The trash directories a drive mounted at `mount` may hold for the user
/// `uid`: the shared `.Trash/uid` and the private `.Trash-uid`.
pub fn drive_trash_paths(mount: &str, uid: u32) -> (r: (String, String))
    ensures
        r.0@ == path_join(path_join(mount@, ".Trash"@), decimal(uid as nat)),
        r.1@ == path_join(mount@, ".Trash-"@ + decimal(uid as nat)),
{
    let n = decimal_string(uid as u128);
    let shared = join(join(mount, ".Trash").as_str(), n.as_str());
    let private = join(mount, concat(".Trash-", n.as_str()).as_str());
    (shared, private)
}

/// What `resolve_trash_item` answers for the item `id`: the file, its
/// `.trashinfo` record and its name, where it lies in the `files` directory of
/// one of the trash directories `known`.
pub open spec fn resolve_spec(id: Seq<char>, known: Seq<Seq<char>>, r: Result<(String, String, String), String>) -> bool {
    match (path_file_name(id), path_parent(id)) {
        (Some(name), Some(files)) => if path_file_name(files) != Some("files"@) {
            r matches Err(e) && e@ == "Trash item is outside a files directory: "@ + id
        } else {
            match path_parent(files) {
                Some(trash) => if exists|k: int| 0 <= k < known.len() && path_same(#[trigger] known[k], trash) {
                    r matches Ok((f, info, n)) && f@ == id && info@ == info_file_spec(trash, name) && n@ == name
                } else {
                    r matches Err(e) && e@ == "Trash item is outside known trash locations: "@ + id
                },
                None => r matches Err(e) && e@ == "Invalid trash item: "@ + id,
            }
        },
        _ => r matches Err(e) && e@ == "Invalid trash item: "@ + id,
    }
}

/// The trashed file `item_id`, its `.trashinfo` record and its name, where it
/// lies in the `files` directory of one of the trash directories `locations`.
pub fn resolve_trash_item(item_id: &str, locations: &Vec<TrashLocation>) -> (r: Result<(String, String, String), String>)
    ensures
        resolve_spec(item_id@, location_paths(locations@), r),
{
    let name = match file_name(item_id) {
        Some(n) => n,
        None => return Err(concat("Invalid trash item: ", item_id)),
    };
    let files = match parent(item_id) {
        Some(f) => f,
        None => return Err(concat("Invalid trash item: ", item_id)),
    };
    let is_files = match file_name(files.as_str()) {
        Some(n) => str_eq(n.as_str(), "files"),
        None => false,
    };
    if !is_files {
        return Err(concat("Trash item is outside a files directory: ", item_id));
    }
    let trash = match parent(files.as_str()) {
        Some(t) => t,
        None => return Err(concat("Invalid trash item: ", item_id)),
    };
    let mut known = false;
    let mut i: usize = 0;
    while i < locations.len()
        invariant
            i <= locations.len(),
            known <==> exists|k: int| 0 <= k < i && path_same((#[trigger] locations@[k]).path@, trash@),
        decreases locations.len() - i,
    {
        if same_path(locations[i].path.as_str(), trash.as_str()) {
            known = true;
        }
        i = i + 1;
    }
    proof {
        let ps = location_paths(locations@);
        if known {
            let k = choose|k: int| 0 <= k < locations@.len() && path_same((#[trigger] locations@[k]).path@, trash@);
            assert(ps[k] == locations@[k].path@);
            assert(path_same(ps[k], trash@));
        } else if exists|k: int| 0 <= k < ps.len() && path_same(#[trigger] ps[k], trash@) {
            let k = choose|k: int| 0 <= k < ps.len() && path_same(#[trigger] ps[k], trash@);
            assert(ps[k] == locations@[k].path@);
            assert(path_same(locations@[k].path@, trash@));
        }
    }
    if !known {
        return Err(concat("Trash item is outside known trash locations: ", item_id));
    }
    let info = info_file_path(trash.as_str(), name.as_str());
    Ok((item_id.to_string(), info, name))
}

/// The trash directories an emptying clears: the one named, which must be
/// listed, or all of them.
pub fn empty_trash(trash_path: Option<String>, locations: &Vec<TrashLocation>) -> (r: Result<Vec<String>, String>)
    ensures
        match trash_path {
            Some(p) => if location_paths(locations@).contains(p@) {
                r matches Ok(ts) && ts@.len() == 1 && ts@[0]@ == p@
            } else {
                r matches Err(e) && e@ == "Unknown trash location: "@ + p@
            },
            None => r matches Ok(ts) && ts@.map_values(|t: String| t@) == location_paths(locations@),
        },
{
    match trash_path {
        Some(p) => {
            let mut allowed = false;
            let mut i: usize = 0;
            while i < locations.len()
                invariant
                    i <= locations.len(),
                    allowed <==> exists|k: int| 0 <= k < i && (#[trigger] locations@[k]).path@ == p@,
                decreases locations.len() - i,
            {
                if str_eq(locations[i].path.as_str(), p.as_str()) {
                    allowed = true;
                }
                i = i + 1;
            }
            proof {
                let ps = location_paths(locations@);
                if allowed {
                    let k = choose|k: int| 0 <= k < locations@.len() && (#[trigger] locations@[k]).path@ == p@;
                    assert(ps[k] == p@);
                } else if ps.contains(p@) {
                    let k = choose|k: int| 0 <= k < ps.len() && ps[k] == p@;
                    assert(locations@[k].path@ == p@);
                }
            }
            if !allowed {
                return Err(concat("Unknown trash location: ", p.as_str()));
            }
            let mut ts: Vec<String> = Vec::new();
            ts.push(p);
            Ok(ts)
        },
        None => {
            let mut ts: Vec<String> = Vec::new();
            let mut i: usize = 0;
            while i < locations.len()
                invariant
                    i <= locations.len(),
                    ts@.map_values(|t: String| t@) == location_paths(locations@).take(i as int),
                decreases locations.len() - i,
            {
                let ghost prev = ts@.map_values(|t: String| t@);
                let p = locations[i].path.clone();
                ts.push(p);
                assert(ts@.map_values(|t: String| t@) =~= prev.push(location_paths(locations@)[i as int]));
                assert(location_paths(locations@).take(i + 1) =~= location_paths(locations@).take(i as int).push(
                    location_paths(locations@)[i as int],
                ));
                i = i + 1;
            }
            assert(location_paths(locations@).take(i as int) =~= location_paths(locations@));
            Ok(ts)
        },
    }
}

/// The directories that emptying the trash directory `trash_path` clears: its
/// `files` and its `info`.
pub fn empty_trash_location(trash_path: &str) -> (r: (String, String))
    ensures
        r.0@ == path_join(trash_path@, "files"@),
        r.1@ == path_join(trash_path@, "info"@),
{
    (join(trash_path, "files"), join(trash_path, "info"))
}

/// The error of a restore whose item is no longer in the trash.
pub fn missing_item_error(name: &str) -> (r: String)
    ensures
        r@ == "Item not found in trash: "@ + name@,
{
    concat("Item not found in trash: ", name)
}

/// The error of a restore whose item has no readable `.trashinfo` record.
pub fn unknown_origin_error(name: &str) -> (r: String)
    ensures
        r@ == "Could not find original path for: "@ + name@,
{
    concat("Could not find original path for: ", name)
}

/// Where the trashed item `name` goes back to: an error where it is no
/// longer in the trash (`in_trash`), else where it has no `.trashinfo`
/// record to say (`info`), else the original path the record names.
pub fn restore_target(name: &str, in_trash: bool, info: Option<(String, i64)>) -> (r: Result<String, String>)
    ensures
        !in_trash ==> (r matches Err(e) && e@ == "Item not found in trash: "@ + name@),
        in_trash ==> match info {
            Some((path, _)) => r == Ok::<String, String>(path),
            None => r matches Err(e) && e@ == "Could not find original path for: "@ + name@,
        },
{
    if !in_trash {
        return Err(missing_item_error(name));
    }
    match info {
        Some((path, _)) => Ok(path),
        None => Err(unknown_origin_error(name)),
    }
}

/// The error of a move to the trash that failed, and whose fallback failed
/// too.
pub fn trash_fallback_error(error: &str, fallback: &str) -> (r: String)
    ensures
        r@ == error@ + "; "@ + fallback@,
{
    let a = concat(error, "; ");
    concat(a.as_str(), fallback)
}

} // verus!
