//! Mounted drives: which mounts the file manager shows, how they are named,
//! merged and ordered, and how one is ejected.
use vstd::prelude::*;
use vstd::utf8::*;
use crate::path_codec::{normalize_path, normalized};
use crate::order::{bytes_lt, lemma_insert_sorted, lemma_lex_lt_irreflexive, lemma_lex_lt_transitive, lex_lt, sorted_by};
use crate::paths::{file_name, path_file_name};
use crate::text::{join, join_strings, ends_with, str_ends_with, string_list_view, 
    bytes_of, chars_list_view, chars_of, concat, lines, lines_of, lossy_utf8, split_chars,
    split_on, starts_with, str_eq, str_starts_with, string_from_utf8_lossy, string_of, trim,
    trim_chars, words, words_of,
};

verus! {

broadcast use vstd::string::group_string_axioms;

/// A mounted drive as the front end shows it.
pub struct DriveInfo {
    pub name: String,
    pub mount_point: String,
    pub device: String,
    pub fs_type: String,
    pub total_space: u64,
    pub available_space: u64,
    pub used_space: u64,
    pub is_removable: bool,
    pub is_readonly: bool,
}

/// The drives, in the order the front end lists them.
pub struct DriveList {
    pub drives: Vec<DriveInfo>,
}

/// One line of the mount table: device, mount point (escapes decoded),
/// file system type and mount options.
pub struct MountEntry {
    pub device: String,
    pub mount_point: String,
    pub fs_type: String,
    pub options: String,
}

/// The options `options` (comma separated) include `ro`.
pub open spec fn read_only_spec(options: Seq<char>) -> bool {
    exists|i: int|
        0 <= i < split_on(options, ',').len() && trim(#[trigger] split_on(options, ',')[i])
            == "ro"@
}

/// Whether the mount options `options` make the mount read-only.
pub fn parse_mount_options(options: &str) -> (r: bool)
    ensures
        r == read_only_spec(options@),
{
    let parts = split_chars(&chars_of(options), ',');
    let ghost p = chars_list_view(parts@);
    let ro = chars_of("ro");
    let mut i: usize = 0;
    while i < parts.len()
        invariant
            i <= parts.len(),
            p == chars_list_view(parts@),
            p == split_on(options@, ','),
            ro@ == "ro"@,
            forall|k: int| 0 <= k < i ==> trim(#[trigger] p[k]) != "ro"@,
        decreases parts.len() - i,
    {
        let t = trim_chars(&parts[i]);
        if crate::text::chars_eq(&t, &ro) {
            assert(trim(p[i as int]) == "ro"@);
            return true;
        }
        i = i + 1;
    }
    false
}

/// The mount point lies under `/run/media/` or `/media/`, where removable media
/// of users are mounted.
pub open spec fn user_media_spec(mp: Seq<char>) -> bool {
    starts_with(mp, "/run/media/"@) || starts_with(mp, "/media/"@)
}

/// Whether `mount_point` is where a user's removable media is mounted.
pub fn is_user_media_mount(mount_point: &str) -> (r: bool)
    ensures
        r == user_media_spec(mount_point@),
{
    str_starts_with(mount_point, "/run/media/") || str_starts_with(mount_point, "/media/")
}

/// `mp` is `skip` or lies below it.
pub open spec fn at_or_below(mp: Seq<char>, skip: Seq<char>) -> bool {
    mp == skip || starts_with(mp, skip + "/"@)
}

/// The mount point is a system location the drive view leaves out.
pub open spec fn skip_spec(mp: Seq<char>) -> bool {
    !user_media_spec(mp) && (at_or_below(mp, "/boot"@) || at_or_below(mp, "/boot/efi"@)
        || at_or_below(mp, "/snap"@) || at_or_below(mp, "/var/snap"@) || at_or_below(mp, "/run"@)
        || at_or_below(mp, "/dev"@) || at_or_below(mp, "/proc"@) || at_or_below(mp, "/sys"@))
}

fn is_at_or_below(mount_point: &str, skip: &str) -> (r: bool)
    ensures
        r == at_or_below(mount_point@, skip@),
{
    let below = concat(skip, "/");
    str_eq(mount_point, skip) || str_starts_with(mount_point, below.as_str())
}

/// The drive view leaves out exactly the system places: a mount point that
/// is `/boot`, `/snap`, `/var/snap`, `/run`, `/dev`, `/proc` or `/sys`, or lies
/// below one of them, unless it is under `/media/` or `/run/media/`, where
/// users' removable media are mounted.
pub proof fn lemma_skipped_mounts(mp: Seq<char>)
    ensures
        skip_spec(mp) <==> (!(starts_with(mp, "/media/"@) || starts_with(mp, "/run/media/"@)) && (mp == "/boot"@
            || starts_with(mp, "/boot/"@) || mp == "/snap"@ || starts_with(mp, "/snap/"@) || mp == "/var/snap"@
            || starts_with(mp, "/var/snap/"@) || mp == "/run"@ || starts_with(mp, "/run/"@) || mp == "/dev"@
            || starts_with(mp, "/dev/"@) || mp == "/proc"@ || starts_with(mp, "/proc/"@) || mp == "/sys"@
            || starts_with(mp, "/sys/"@))),
{
    reveal_strlit("/");
    reveal_strlit("/boot");
    reveal_strlit("/boot/");
    reveal_strlit("/boot/efi");
    reveal_strlit("/snap");
    reveal_strlit("/snap/");
    reveal_strlit("/var/snap");
    reveal_strlit("/var/snap/");
    reveal_strlit("/run");
    reveal_strlit("/run/");
    reveal_strlit("/dev");
    reveal_strlit("/dev/");
    reveal_strlit("/proc");
    reveal_strlit("/proc/");
    reveal_strlit("/sys");
    reveal_strlit("/sys/");
    assert("/boot"@ + "/"@ =~= "/boot/"@);
    assert("/snap"@ + "/"@ =~= "/snap/"@);
    assert("/var/snap"@ + "/"@ =~= "/var/snap/"@);
    assert("/run"@ + "/"@ =~= "/run/"@);
    assert("/dev"@ + "/"@ =~= "/dev/"@);
    assert("/proc"@ + "/"@ =~= "/proc/"@);
    assert("/sys"@ + "/"@ =~= "/sys/"@);
    if at_or_below(mp, "/boot/efi"@) {
        assert("/boot/efi"@ + "/"@ =~= "/boot/efi/"@) by {
            reveal_strlit("/boot/efi/");
        }
        assert(starts_with(mp, "/boot/"@)) by {
            reveal_strlit("/boot/efi/");
            if mp == "/boot/efi"@ {
                assert(mp.take(6) =~= "/boot/"@);
            } else {
                assert(mp.take(10) =~= "/boot/efi/"@);
                assert(mp.take(6) =~= mp.take(10).take(6));
                assert("/boot/efi/"@.take(6) =~= "/boot/"@);
            }
        }
    }
}

/// Whether the drive view leaves the mount point out.
pub fn should_skip_mount(mount_point: &str) -> (r: bool)
    ensures
        r == skip_spec(mount_point@),
{
    if is_user_media_mount(mount_point) {
        return false;
    }
    is_at_or_below(mount_point, "/boot") || is_at_or_below(mount_point, "/boot/efi")
        || is_at_or_below(mount_point, "/snap") || is_at_or_below(mount_point, "/var/snap")
        || is_at_or_below(mount_point, "/run") || is_at_or_below(mount_point, "/dev")
        || is_at_or_below(mount_point, "/proc") || is_at_or_below(mount_point, "/sys")
}

/// The file system type begins with one the drive view shows.
pub open spec fn shown_fs(t: Seq<char>) -> bool {
    starts_with(t, "ext4"@) || starts_with(t, "ext3"@) || starts_with(t, "ext2"@) || starts_with(
        t,
        "btrfs"@,
    ) || starts_with(t, "xfs"@) || starts_with(t, "ntfs"@) || starts_with(t, "ntfs3"@)
        || starts_with(t, "vfat"@) || starts_with(t, "fat32"@) || starts_with(t, "fat16"@)
        || starts_with(t, "exfat"@) || starts_with(t, "f2fs"@) || starts_with(t, "zfs"@)
        || starts_with(t, "fuseblk"@) || starts_with(t, "fuse.ntfs-3g"@) || starts_with(
        t,
        "apfs"@,
    )
}

/// The drive view shows the mount: a shown file system on a device node, at a
/// mount point it does not leave out.
pub open spec fn include_spec(device: Seq<char>, mp: Seq<char>, fs_type: Seq<char>) -> bool {
    shown_fs(fs_type) && !skip_spec(mp) && starts_with(device, "/dev/"@)
}

fn is_shown_fs(t: &str) -> (r: bool)
    ensures
        r == shown_fs(t@),
{
    str_starts_with(t, "ext4") || str_starts_with(t, "ext3") || str_starts_with(t, "ext2")
        || str_starts_with(t, "btrfs") || str_starts_with(t, "xfs") || str_starts_with(t, "ntfs")
        || str_starts_with(t, "ntfs3") || str_starts_with(t, "vfat") || str_starts_with(
        t,
        "fat32",
    ) || str_starts_with(t, "fat16") || str_starts_with(t, "exfat") || str_starts_with(t, "f2fs")
        || str_starts_with(t, "zfs") || str_starts_with(t, "fuseblk") || str_starts_with(
        t,
        "fuse.ntfs-3g",
    ) || str_starts_with(t, "apfs")
}

/// Whether the drive view shows the mount of `device` at `mount_point`.
pub fn should_include_mount(device: &str, mount_point: &str, fs_type: &str) -> (r: bool)
    ensures
        r == include_spec(device@, mount_point@, fs_type@),
{
    is_shown_fs(fs_type) && !should_skip_mount(mount_point) && str_starts_with(device, "/dev/")
}

/// The index of the last `c` in `s`.
pub open spec fn last_index(s: Seq<char>, c: char) -> Option<int>
    decreases s.len(),
{
    if s.len() == 0 {
        None
    } else if s.last() == c {
        Some(s.len() - 1)
    } else {
        last_index(s.drop_last(), c)
    }
}

/// `c` is an ASCII digit.
pub open spec fn is_digit(c: char) -> bool {
    '0' <= c && c <= '9'
}

/// `s` without its trailing ASCII digits.
pub open spec fn trim_end_digits(s: Seq<char>) -> Seq<char>
    decreases s.len(),
{
    if s.len() > 0 && is_digit(s.last()) {
        trim_end_digits(s.drop_last())
    } else {
        s
    }
}

/// The whole block device that the device node `device` belongs to: the name
/// after `/dev/` (and `mapper/`) without a `p<digits>` partition suffix, or else
/// without its trailing digits; `None` outside `/dev/` or where nothing is left.
pub open spec fn base_device_spec(device: Seq<char>) -> Option<Seq<char>> {
    match strip(device, "/dev/"@) {
        None => None,
        Some(n1) => {
            let name = match strip(n1, "mapper/"@) {
                Some(n2) => n2,
                None => n1,
            };
            let fallback = if trim_end_digits(name).len() == 0 {
                None
            } else {
                Some(trim_end_digits(name))
            };
            match last_index(name, 'p') {
                Some(k) => if digits_after(name, k) {
                    Some(name.take(k))
                } else {
                    fallback
                },
                None => fallback,
            }
        },
    }
}

/// Every character of `name` after index `k` is a digit.
pub open spec fn digits_after(name: Seq<char>, k: int) -> bool {
    forall|i: int| k + 1 <= i < name.len() ==> is_digit(#[trigger] name[i])
}

/// `s` without the prefix `p`, where it starts with it.
pub open spec fn strip(s: Seq<char>, p: Seq<char>) -> Option<Seq<char>> {
    if starts_with(s, p) {
        Some(s.skip(p.len() as int))
    } else {
        None
    }
}

fn strip_prefix_chars(v: &Vec<char>, p: &str) -> (r: Option<Vec<char>>)
    ensures
        r matches Some(x) ==> strip(v@, p@) == Some(x@),
        r is None ==> strip(v@, p@) is None,
{
    let pc = chars_of(p);
    if crate::text::chars_start_with(v, &pc) {
        Some(crate::text::slice_chars(v, pc.len(), v.len()))
    } else {
        None
    }
}

/// The whole block device that a device node belongs to.
pub fn base_block_device(device: &str) -> (r: Option<String>)
    ensures
        r matches Some(s) ==> base_device_spec(device@) == Some(s@),
        r is None ==> base_device_spec(device@) is None,
{
    let dv = chars_of(device);
    let n1 = match strip_prefix_chars(&dv, "/dev/") {
        Some(n) => n,
        None => return None,
    };
    let name = match strip_prefix_chars(&n1, "mapper/") {
        Some(n) => n,
        None => n1,
    };
    assert(name@ == (match strip(n1@, "mapper/"@) {
        Some(n2) => n2,
        None => n1@,
    }));
    assert(strip(device@, "/dev/"@) == Some(n1@));
    let mut j: usize = name.len();
    assert(name@.take(j as int) =~= name@);
    while j > 0 && name[j - 1] != 'p'
        invariant
            j <= name.len(),
            last_index(name@, 'p') == last_index(name@.take(j as int), 'p'),
        decreases j,
    {
        assert(name@.take(j as int).drop_last() =~= name@.take(j - 1));
        j = j - 1;
    }
    if j > 0 {
        assert(last_index(name@.take(j as int), 'p') == Some(j - 1));
        let k = j - 1;
        let mut i = j;
        let mut all = true;
        while i < name.len()
            invariant
                j <= i <= name.len(),
                all == (forall|m: int| j <= m < i ==> is_digit(#[trigger] name@[m])),
            decreases name.len() - i,
        {
            if !('0' <= name[i] && name[i] <= '9') {
                all = false;
            }
            i = i + 1;
        }
        if all {
            assert(base_device_spec(device@) == Some(name@.take(k as int)));
            let base = crate::text::slice_chars(&name, 0, k);
            return Some(string_of(&base));
        }
    } else {
        assert(name@.take(0) =~= Seq::<char>::empty());
    }
    let ghost fallback = if trim_end_digits(name@).len() == 0 {
        None
    } else {
        Some(trim_end_digits(name@))
    };
    assert(last_index(name@, 'p') is None || !digits_after(name@, last_index(name@, 'p')->0));
    assert(base_device_spec(device@) == fallback);
    let mut e: usize = name.len();
    assert(name@.take(e as int) =~= name@);
    while e > 0 && '0' <= name[e - 1] && name[e - 1] <= '9'
        invariant
            e <= name.len(),
            trim_end_digits(name@) == trim_end_digits(name@.take(e as int)),
        decreases e,
    {
        assert(name@.take(e as int).drop_last() =~= name@.take(e - 1));
        e = e - 1;
    }
    if e > 0 {
        assert(name@.take(e as int).last() == name@[e - 1]);
    }
    assert(trim_end_digits(name@.take(e as int)) == name@.take(e as int));
    if e == 0 {
        assert(name@.take(0) =~= Seq::<char>::empty());
        None
    } else {
        let base = crate::text::slice_chars(&name, 0, e);
        Some(string_of(&base))
    }
}

/// The length in bytes of `s` (`str::len`).
pub open spec fn byte_len(s: Seq<char>) -> int {
    encode_utf8(s).len() as int
}

/// `candidate` replaces `current` as the drive shown for a device: a root
/// mount always wins, else the shorter mount point.
pub open spec fn prefer_spec(candidate: Seq<char>, current: Seq<char>) -> bool {
    if candidate == "/"@ {
        true
    } else if current == "/"@ {
        false
    } else {
        byte_len(candidate) < byte_len(current)
    }
}

/// Whether `candidate` replaces `current` as the drive shown for their device.
pub fn prefer_drive(candidate: &DriveInfo, current: &DriveInfo) -> (r: bool)
    ensures
        r == prefer_spec(candidate.mount_point@, current.mount_point@),
{
    if str_eq(candidate.mount_point.as_str(), "/") {
        return true;
    }
    if str_eq(current.mount_point.as_str(), "/") {
        return false;
    }
    bytes_of(candidate.mount_point.as_str()).len() < bytes_of(current.mount_point.as_str()).len()
}


/// `b` is an octal digit byte.
pub open spec fn octal_digit(b: u8) -> bool {
    48 <= b && b <= 55
}

/// What `u8::from_str_radix(.., 8)` makes of the three bytes `x y z`: three
/// octal digits below 256, or `+` and two octal digits.
pub open spec fn octal3(x: u8, y: u8, z: u8) -> Option<u8> {
    if octal_digit(x) && octal_digit(y) && octal_digit(z) {
        let v = (x - 48) * 64 + (y - 48) * 8 + (z - 48);
        if v <= 255 {
            Some(v as u8)
        } else {
            None
        }
    } else if x == 43 && octal_digit(y) && octal_digit(z) {
        Some(((y - 48) * 8 + (z - 48)) as u8)
    } else {
        None
    }
}

/// The bytes of a mount table field with its `\ooo` escapes decoded.
pub open spec fn mount_decode(b: Seq<u8>) -> Seq<u8>
    decreases b.len(),
{
    if b.len() == 0 {
        seq![]
    } else if b[0] == 92 && b.len() > 3 && octal3(b[1], b[2], b[3]) is Some {
        seq![octal3(b[1], b[2], b[3])->0] + mount_decode(b.skip(4))
    } else {
        seq![b[0]] + mount_decode(b.skip(1))
    }
}

/// Each backslash followed by three more bytes in the field `w` ends its escape
/// on a character boundary, so the escape can be sliced out of the text.
pub open spec fn decodable(w: Seq<char>) -> bool {
    let b = encode_utf8(w);
    forall|i: int|
        0 <= i && i + 3 < b.len() && #[trigger] b[i] == 92 ==> is_char_boundary(b, i + 4)
}

/// A mount table field with its escapes decoded, invalid UTF-8 replaced.
pub open spec fn decoded_field(w: Seq<char>) -> Seq<char> {
    lossy_utf8(mount_decode(encode_utf8(w)))
}

fn octal_value(x: u8, y: u8, z: u8) -> (r: Option<u8>)
    ensures
        r == octal3(x, y, z),
{
    if 48 <= x && x <= 55 && 48 <= y && y <= 55 && 48 <= z && z <= 55 {
        let v: u32 = (x - 48) as u32 * 64 + (y - 48) as u32 * 8 + (z - 48) as u32;
        if v <= 255 {
            Some(v as u8)
        } else {
            None
        }
    } else if x == 43 && 48 <= y && y <= 55 && 48 <= z && z <= 55 {
        Some((y - 48) * 8 + (z - 48))
    } else {
        None
    }
}

/// Decodes the `\ooo` escapes of a mount table field (`/proc/mounts` writes
/// space, tab, newline and backslash so).
pub fn decode_mount_field(value: &str) -> (r: String)
    requires
        decodable(value@),
    ensures
        r@ == decoded_field(value@),
{
    let bytes = bytes_of(value);
    let ghost b = bytes@;
    let mut out: Vec<u8> = Vec::new();
    let mut index: usize = 0;
    assert(b.skip(0) =~= b);
    while index < bytes.len()
        invariant
            b == bytes@,
            index <= bytes.len(),
            mount_decode(b) == out@ + mount_decode(b.skip(index as int)),
        decreases bytes.len() - index,
    {
        let ghost rest = b.skip(index as int);
        if bytes[index] == 92 && 3 < bytes.len() - index {
            match octal_value(bytes[index + 1], bytes[index + 2], bytes[index + 3]) {
                Some(v) => {
                    assert(rest[1] == b[index + 1] && rest[2] == b[index + 2] && rest[3] == b[index + 3]);
                    assert(rest.skip(4) =~= b.skip(index + 4));
                    out.push(v);
                    index = index + 4;
                    continue;
                },
                None => {
                    assert(rest[1] == b[index + 1] && rest[2] == b[index + 2] && rest[3] == b[index + 3]);
                },
            }
        }
        assert(rest.skip(1) =~= b.skip(index + 1));
        out.push(bytes[index]);
        index = index + 1;
    }
    assert(out@ =~= mount_decode(b));
    string_from_utf8_lossy(out.as_slice())
}

/// The mount points the drive view shows, in the order of the mount table
/// lines `ls` (a line needs three fields).
pub open spec fn visible_from(ls: Seq<Seq<char>>) -> Seq<Seq<char>>
    decreases ls.len(),
{
    if ls.len() == 0 {
        seq![]
    } else {
        let prev = visible_from(ls.drop_last());
        let w = words(ls.last());
        if w.len() >= 3 && include_spec(w[0], decoded_field(w[1]), w[2]) {
            prev.push(decoded_field(w[1]))
        } else {
            prev
        }
    }
}

/// The shown mounts of the mount table lines `ls` as (device, mount point,
/// file system type, options); a line needs four fields.
pub open spec fn entries_from(ls: Seq<Seq<char>>) -> Seq<(Seq<char>, Seq<char>, Seq<char>, Seq<char>)>
    decreases ls.len(),
{
    if ls.len() == 0 {
        seq![]
    } else {
        let prev = entries_from(ls.drop_last());
        let w = words(ls.last());
        if w.len() >= 4 && include_spec(w[0], decoded_field(w[1]), w[2]) {
            prev.push((w[0], decoded_field(w[1]), w[2], w[3]))
        } else {
            prev
        }
    }
}

/// Every mount point field of the mount table `content` can be decoded.
pub open spec fn table_decodable(content: Seq<char>) -> bool {
    forall|i: int|
        0 <= i < lines(content).len() && words(#[trigger] lines(content)[i]).len() >= 2
            ==> decodable(words(lines(content)[i])[1])
}

/// The view of a mount entry.
pub open spec fn entry_view(e: MountEntry) -> (Seq<char>, Seq<char>, Seq<char>, Seq<char>) {
    (e.device@, e.mount_point@, e.fs_type@, e.options@)
}

/// Whether the escapes of the field `field` can be sliced out of it.
pub fn field_decodable(field: &str) -> (r: bool)
    ensures
        r == decodable(field@),
{
    let b = bytes_of(field);
    proof {
        vstd::utf8::encode_utf8_valid_utf8(field@);
    }
    let mut j: usize = 0;
    while j < b.len()
        invariant
            j <= b.len(),
            b@ == encode_utf8(field@),
            valid_utf8(b@),
            forall|m: int|
                0 <= m < j && m + 3 < b@.len() && #[trigger] b@[m] == 92 ==> is_char_boundary(b@, m + 4),
        decreases b.len() - j,
    {
        if b[j] == 92 && 3 < b.len() - j {
            let at = j + 4;
            let ok = at == b.len() || !(128 <= b[at] && b[at] < 192);
            proof {
                if at == b.len() {
                    vstd::utf8::is_char_boundary_start_end_of_seq(b@);
                } else {
                    vstd::utf8::is_char_boundary_iff_not_is_continuation_byte(b@, at as int);
                }
            }
            if !ok {
                assert(b@[j as int] == 92);
                return false;
            }
        }
        j = j + 1;
    }
    true
}

/// Whether each mount point field of the mount table can be decoded (what
/// `decode_mount_field` needs of it).
pub fn mount_table_decodable(content: &str) -> (r: bool)
    ensures
        r == table_decodable(content@),
{
    let ls = lines_of(&chars_of(content));
    let ghost l = chars_list_view(ls@);
    let mut i: usize = 0;
    while i < ls.len()
        invariant
            i <= ls.len(),
            l == chars_list_view(ls@),
            l == lines(content@),
            forall|k: int|
                0 <= k < i && words(#[trigger] l[k]).len() >= 2 ==> decodable(words(l[k])[1]),
        decreases ls.len() - i,
    {
        let w = words_of(&ls[i]);
        assert(l[i as int] == ls@[i as int]@);
        if w.len() >= 2 {
            assert(chars_list_view(w@)[1] == w@[1]@);
            if !field_decodable(string_of(&w[1]).as_str()) {
                return false;
            }
        }
        i = i + 1;
    }
    true
}


/// The mount points of the mount table `mounts` that the drive view shows, in
/// table order.
pub fn visible_mount_points(mounts: &str) -> (r: Vec<String>)
    requires
        table_decodable(mounts@),
    ensures
        string_list_view(r@) == visible_from(lines(mounts@)),
{
    let ls = lines_of(&chars_of(mounts));
    let ghost l = chars_list_view(ls@);
    let mut out: Vec<String> = Vec::new();
    let mut i: usize = 0;
    while i < ls.len()
        invariant
            i <= ls.len(),
            l == chars_list_view(ls@),
            l == lines(mounts@),
            table_decodable(mounts@),
            string_list_view(out@) == visible_from(l.take(i as int)),
        decreases ls.len() - i,
    {
        let ghost before = string_list_view(out@);
        assert(l.take(i + 1).drop_last() =~= l.take(i as int));
        assert(l.take(i + 1).last() == l[i as int]);
        assert(l[i as int] == ls@[i as int]@);
        let w = words_of(&ls[i]);
        let ghost wv = chars_list_view(w@);
        if w.len() >= 3 {
            assert(wv[0] == w@[0]@ && wv[1] == w@[1]@ && wv[2] == w@[2]@);
            let device = string_of(&w[0]);
            let fs_type = string_of(&w[2]);
            let mp = decode_mount_field(string_of(&w[1]).as_str());
            if should_include_mount(device.as_str(), mp.as_str(), fs_type.as_str()) {
                out.push(mp);
                assert(string_list_view(out@) =~= before.push(decoded_field(wv[1])));
            }
        }
        i = i + 1;
    }
    assert(l.take(ls.len() as int) =~= l);
    out
}

/// The shown mounts of the mount table `mounts`, in table order.
pub fn mount_entries(mounts: &str) -> (r: Vec<MountEntry>)
    requires
        table_decodable(mounts@),
    ensures
        r@.map_values(|e: MountEntry| entry_view(e)) == entries_from(lines(mounts@)),
{
    let ls = lines_of(&chars_of(mounts));
    let ghost l = chars_list_view(ls@);
    let mut out: Vec<MountEntry> = Vec::new();
    let mut i: usize = 0;
    while i < ls.len()
        invariant
            i <= ls.len(),
            l == chars_list_view(ls@),
            l == lines(mounts@),
            table_decodable(mounts@),
            out@.map_values(|e: MountEntry| entry_view(e)) == entries_from(l.take(i as int)),
        decreases ls.len() - i,
    {
        let ghost before = out@.map_values(|e: MountEntry| entry_view(e));
        assert(l.take(i + 1).drop_last() =~= l.take(i as int));
        assert(l.take(i + 1).last() == l[i as int]);
        assert(l[i as int] == ls@[i as int]@);
        let w = words_of(&ls[i]);
        let ghost wv = chars_list_view(w@);
        if w.len() >= 4 {
            assert(wv[0] == w@[0]@ && wv[1] == w@[1]@ && wv[2] == w@[2]@ && wv[3] == w@[3]@);
            let device = string_of(&w[0]);
            let fs_type = string_of(&w[2]);
            let mount_point = decode_mount_field(string_of(&w[1]).as_str());
            if should_include_mount(device.as_str(), mount_point.as_str(), fs_type.as_str()) {
                let options = string_of(&w[3]);
                out.push(MountEntry { device, mount_point, fs_type, options });
                assert(out@.map_values(|e: MountEntry| entry_view(e)) =~= before.push(
                    (wv[0], decoded_field(wv[1]), wv[2], wv[3]),
                ));
            }
        }
        i = i + 1;
    }
    assert(l.take(ls.len() as int) =~= l);
    out
}


/// `s` with every leading copy of `p` removed (`str::trim_start_matches`).
pub open spec fn trim_start_matches(s: Seq<char>, p: Seq<char>) -> Seq<char>
    decreases s.len(),
{
    if p.len() > 0 && starts_with(s, p) {
        trim_start_matches(s.skip(p.len() as int), p)
    } else {
        s
    }
}

/// `t` occurs in `s`.
pub open spec fn contains_seq(s: Seq<char>, t: Seq<char>) -> bool {
    exists|i: int| 0 <= i && i + t.len() <= s.len() && #[trigger] s.subrange(i, i + t.len()) == t
}

/// Whether `t` occurs in `s`.
pub fn contains_chars(s: &Vec<char>, t: &Vec<char>) -> (r: bool)
    ensures
        r == contains_seq(s@, t@),
{
    if t.len() == 0 {
        assert(s@.subrange(0, 0 + t.len()) =~= t@);
        return true;
    }
    let mut i: usize = 0;
    while i <= s.len() && s.len() - i >= t.len()
        invariant
            t.len() > 0,
            i <= s.len(),
            forall|k: int| 0 <= k < i ==> #[trigger] s@.subrange(k, k + t.len()) != t@,
        decreases s.len() - i,
    {
        let piece = crate::text::slice_chars(s, i, i + t.len());
        if crate::text::chars_eq(&piece, t) {
            return true;
        }
        i = i + 1;
    }
    assert forall|k: int| 0 <= k && k + t.len() <= s.len() implies #[trigger] s@.subrange(k, k + t@.len()) != t@ by {
        assert(k < i);
    }
    false
}

/// The sysfs facts make a device removable: its `removable` flag reads `1`, or
/// its device link runs through USB.
pub open spec fn removable_spec(
    base: Option<Seq<char>>,
    removable: Option<Seq<char>>,
    device_link: Option<Seq<char>>,
) -> bool {
    base is Some && ((removable matches Some(c) && trim(c) == "1"@) || (
    device_link matches Some(l) && contains_seq(l, "/usb"@)))
}

/// Whether a device is removable, from its whole block device `base` and what
/// sysfs holds for it: the text of `/sys/block/<base>/removable` and the target
/// of `/sys/block/<base>/device`, where they could be read.
pub fn is_removable_device(base: Option<String>, removable: Option<String>, device_link: Option<String>) -> (r: bool)
    ensures
        r == removable_spec(opt_view(base), opt_view(removable), opt_view(device_link)),
{
    if base.is_none() {
        return false;
    }
    if let Some(content) = &removable {
        let t = crate::text::trim_str(content.as_str());
        if str_eq(t.as_str(), "1") {
            return true;
        }
    }
    match &device_link {
        Some(link) => contains_chars(&chars_of(link.as_str()), &chars_of("/usb")),
        None => false,
    }
}

/// The view of an optional string.
pub open spec fn opt_view(o: Option<String>) -> Option<Seq<char>> {
    match o {
        Some(s) => Some(s@),
        None => None,
    }
}

/// The label of the first `(label, link target)` pair of `/dev/disk/by-label`
/// whose link names `device`.
pub open spec fn label_for(entries: Seq<(Seq<char>, Seq<char>)>, device: Seq<char>) -> Option<Seq<char>>
    decreases entries.len(),
{
    if entries.len() == 0 {
        None
    } else if ends_with(device, entries[0].1) || ends_with(
        entries[0].1,
        trim_start_matches(device, "/dev/"@),
    ) {
        Some(entries[0].0)
    } else {
        label_for(entries.drop_first(), device)
    }
}

/// The name a drive is shown with: its file system label where one links to
/// the device, else the last component of the mount point, `System` for `/`,
/// or the mount point itself.
pub open spec fn label_spec(mp: Seq<char>, device: Seq<char>, entries: Seq<(Seq<char>, Seq<char>)>) -> Seq<char> {
    match label_for(entries, device) {
        Some(l) => l,
        None => match path_file_name(mp) {
            Some(n) => n,
            None => if mp == "/"@ {
                "System"@
            } else {
                mp
            },
        },
    }
}

/// The view of `(label, link target)` pairs.
pub open spec fn pairs_view(v: Seq<(String, String)>) -> Seq<(Seq<char>, Seq<char>)> {
    v.map_values(|p: (String, String)| (p.0@, p.1@))
}

fn trim_dev_prefix(device: &str) -> (r: Vec<char>)
    ensures
        r@ == trim_start_matches(device@, "/dev/"@),
{
    let p = chars_of("/dev/");
    proof {
        reveal_strlit("/dev/");
    }
    let mut cur = chars_of(device);
    while crate::text::chars_start_with(&cur, &p)
        invariant
            p@ == "/dev/"@,
            p@.len() > 0,
            trim_start_matches(device@, "/dev/"@) == trim_start_matches(cur@, "/dev/"@),
        decreases cur.len(),
    {
        cur = crate::text::slice_chars(&cur, p.len(), cur.len());
    }
    cur
}

/// The name a drive is shown with. `by_label` holds the `(label, link
/// target)` pairs of `/dev/disk/by-label`.
pub fn get_drive_label(mount_point: &str, device: &str, by_label: &Vec<(String, String)>) -> (r: String)
    ensures
        r@ == label_spec(mount_point@, device@, pairs_view(by_label@)),
{
    let trimmed = string_of(&trim_dev_prefix(device));
    let ghost e = pairs_view(by_label@);
    let mut i: usize = 0;
    assert(e.skip(0) =~= e);
    while i < by_label.len()
        invariant
            i <= by_label.len(),
            e == pairs_view(by_label@),
            trimmed@ == trim_start_matches(device@, "/dev/"@),
            label_for(e, device@) == label_for(e.skip(i as int), device@),
        decreases by_label.len() - i,
    {
        assert(e.skip(i as int).drop_first() =~= e.skip(i + 1));
        assert(e.skip(i as int)[0] == e[i as int]);
        let (label, link) = (&by_label[i].0, &by_label[i].1);
        if str_ends_with(device, link.as_str()) || str_ends_with(link.as_str(), trimmed.as_str()) {
            return label.clone();
        }
        i = i + 1;
    }
    assert(e.skip(i as int) =~= Seq::<(Seq<char>, Seq<char>)>::empty());
    match file_name(mount_point) {
        Some(n) => n,
        None => {
            if str_eq(mount_point, "/") {
                "System".to_string()
            } else {
                mount_point.to_string()
            }
        },
    }
}

/// The drive a shown mount becomes, given the space of its file system, its
/// name and whether its device is removable; none where the file system has
/// no space (usually one that cannot be read).
pub open spec fn drive_spec(
    e: MountEntry,
    total: u64,
    available: u64,
    label: Seq<char>,
    removable_device: bool,
    d: DriveInfo,
) -> bool {
    &&& d.name@ == label
    &&& d.mount_point@ == e.mount_point@
    &&& d.device@ == e.device@
    &&& d.fs_type@ == e.fs_type@
    &&& d.total_space == total
    &&& d.available_space == available
    &&& d.used_space == (if total >= available { (total - available) as u64 } else { 0 })
    &&& d.is_removable == (removable_device || user_media_spec(e.mount_point@))
    &&& d.is_readonly == read_only_spec(e.options@)
}

/// The drive shown for the mount `entry`: `None` where its file system reports
/// no space.
pub fn drive_from_mount(
    entry: &MountEntry,
    total_space: u64,
    available_space: u64,
    name: String,
    removable_device: bool,
) -> (r: Option<DriveInfo>)
    ensures
        r is None <==> total_space == 0,
        r matches Some(d) ==> drive_spec(*entry, total_space, available_space, name@, removable_device, d),
{
    if total_space == 0 {
        return None;
    }
    let used_space = if total_space >= available_space { total_space - available_space } else { 0 };
    Some(DriveInfo {
        name,
        mount_point: entry.mount_point.clone(),
        device: entry.device.clone(),
        fs_type: entry.fs_type.clone(),
        total_space,
        available_space,
        used_space,
        is_removable: removable_device || is_user_media_mount(entry.mount_point.as_str()),
        is_readonly: parse_mount_options(entry.options.as_str()),
    })
}

/// A copy of `d`.
pub fn copy_drive(d: &DriveInfo) -> (r: DriveInfo)
    ensures
        r == *d,
{
    DriveInfo {
        name: d.name.clone(),
        mount_point: d.mount_point.clone(),
        device: d.device.clone(),
        fs_type: d.fs_type.clone(),
        total_space: d.total_space,
        available_space: d.available_space,
        used_space: d.used_space,
        is_removable: d.is_removable,
        is_readonly: d.is_readonly,
    }
}

/// The drive kept for the device `dev` among the candidates `c`: the first
/// one, replaced by each later one that `prefer_spec` prefers.
pub open spec fn winner(c: Seq<DriveInfo>, dev: Seq<char>) -> Option<DriveInfo>
    decreases c.len(),
{
    if c.len() == 0 {
        None
    } else {
        let w = winner(c.drop_last(), dev);
        let x = c.last();
        if x.device@ != dev {
            w
        } else {
            match w {
                None => Some(x),
                Some(cur) => if prefer_spec(x.mount_point@, cur.mount_point@) {
                    Some(x)
                } else {
                    Some(cur)
                },
            }
        }
    }
}

/// `a` is listed before `b`: the root drive first, the others by name.
pub open spec fn drive_lt(a: DriveInfo, b: DriveInfo) -> bool {
    let ar = a.mount_point@ == "/"@;
    let br = b.mount_point@ == "/"@;
    (ar && !br) || (!ar && !br && lex_lt(encode_utf8(a.name@), encode_utf8(b.name@)))
}

proof fn lemma_winner_prefers(c: Seq<DriveInfo>, dev: Seq<char>)
    ensures
        winner(c, dev) matches Some(w) ==> w.device@ == dev && forall|k: int|
            0 <= k < c.len() && (#[trigger] c[k]).device@ == dev ==> (c[k].mount_point@ == "/"@ ==> w.mount_point@
                == "/"@) && (w.mount_point@ != "/"@ ==> byte_len(w.mount_point@) <= byte_len(c[k].mount_point@)),
        (exists|k: int| 0 <= k < c.len() && (#[trigger] c[k]).device@ == dev) ==> winner(c, dev) is Some,
    decreases c.len(),
{
    if c.len() > 0 {
        let p = c.drop_last();
        let x = c.last();
        lemma_winner_prefers(p, dev);
        assert forall|k: int| 0 <= k < p.len() implies #[trigger] p[k] == c[k] by {}
        if exists|k: int| 0 <= k < c.len() && (#[trigger] c[k]).device@ == dev {
            let k = choose|k: int| 0 <= k < c.len() && (#[trigger] c[k]).device@ == dev;
            if k < p.len() {
                assert(p[k].device@ == dev);
            }
        }
        let prev = winner(p, dev);
        if x.device@ == dev {
            match prev {
                None => {
                    assert forall|k: int| 0 <= k < c.len() && (#[trigger] c[k]).device@ == dev implies k == c.len() - 1 by {
                        if k < p.len() {
                            assert(p[k].device@ == dev);
                        }
                    }
                },
                Some(cur) => {
                    let w = winner(c, dev)->0;
                    assert forall|k: int| 0 <= k < c.len() && (#[trigger] c[k]).device@ == dev implies (c[k].mount_point@
                        == "/"@ ==> w.mount_point@ == "/"@) && (w.mount_point@ != "/"@ ==> byte_len(w.mount_point@)
                        <= byte_len(c[k].mount_point@)) by {
                        if k < p.len() {
                            assert(p[k].device@ == dev);
                            assert(c[k] == p[k]);
                        } else {
                            assert(c[k] == x);
                        }
                    }
                },
            }
        } else if prev is Some {
            let w = prev->0;
            assert forall|k: int| 0 <= k < c.len() && (#[trigger] c[k]).device@ == dev implies (c[k].mount_point@
                == "/"@ ==> w.mount_point@ == "/"@) && (w.mount_point@ != "/"@ ==> byte_len(w.mount_point@)
                <= byte_len(c[k].mount_point@)) by {
                assert(k < p.len());
                assert(p[k].device@ == dev);
                assert(c[k] == p[k]);
            }
        }
    }
}

/// The drive kept for a device that several mounts share: its root mount
/// where it has one, else a mount point no longer than any other of the
/// device's (the first of the shortest).
pub proof fn lemma_kept_mount(c: Seq<DriveInfo>, r: Seq<DriveInfo>)
    requires
        arranged(c, r),
    ensures
        forall|i: int, k: int|
            0 <= i < r.len() && 0 <= k < c.len() && (#[trigger] c[k]).device@ == (#[trigger] r[i]).device@ ==> (
            c[k].mount_point@ == "/"@ ==> r[i].mount_point@ == "/"@) && (r[i].mount_point@ != "/"@ ==> byte_len(
                r[i].mount_point@,
            ) <= byte_len(c[k].mount_point@)),
        forall|i: int, j: int|
            0 <= i < j < r.len() && (#[trigger] r[j]).mount_point@ == "/"@ ==> (#[trigger] r[i]).mount_point@ == "/"@,
{
    assert forall|i: int, k: int|
        0 <= i < r.len() && 0 <= k < c.len() && (#[trigger] c[k]).device@ == (#[trigger] r[i]).device@ implies (
        c[k].mount_point@ == "/"@ ==> r[i].mount_point@ == "/"@) && (r[i].mount_point@ != "/"@ ==> byte_len(
            r[i].mount_point@,
        ) <= byte_len(c[k].mount_point@)) by {
        lemma_winner_prefers(c, r[i].device@);
    }
    assert forall|i: int, j: int|
        0 <= i < j < r.len() && (#[trigger] r[j]).mount_point@ == "/"@ implies (#[trigger] r[i]).mount_point@ == "/"@ by {
        assert(!drive_lt(r[j], r[i]));
    }
}

/// `r` holds one drive per device of the candidates `c`, the one `winner`
/// keeps, listed root first and then by name.
pub open spec fn arranged(c: Seq<DriveInfo>, r: Seq<DriveInfo>) -> bool {
    &&& forall|i: int| 0 <= i < r.len() ==> winner(c, (#[trigger] r[i]).device@) == Some(r[i])
    &&& forall|i: int, j: int| 0 <= i < j < r.len() ==> (#[trigger] r[i]).device@ != (#[trigger] r[j]).device@
    &&& forall|k: int| 0 <= k < c.len() ==> exists|i: int| 0 <= i < r.len() && (#[trigger] r[i]).device@ == (#[trigger] c[k]).device@
    &&& sorted_by(r, |a: DriveInfo, b: DriveInfo| drive_lt(a, b))
}

fn drive_less(a: &DriveInfo, b: &DriveInfo) -> (r: bool)
    ensures
        r == drive_lt(*a, *b),
{
    let ar = str_eq(a.mount_point.as_str(), "/");
    let br = str_eq(b.mount_point.as_str(), "/");
    (ar && !br) || (!ar && !br && bytes_lt(&bytes_of(a.name.as_str()), &bytes_of(b.name.as_str())))
}

proof fn lemma_drive_lt_order()
    ensures
        crate::order::transitive(|a: DriveInfo, b: DriveInfo| drive_lt(a, b)),
        crate::order::irreflexive(|a: DriveInfo, b: DriveInfo| drive_lt(a, b)),
{
    let lt = |a: DriveInfo, b: DriveInfo| drive_lt(a, b);
    assert forall|a: DriveInfo, b: DriveInfo, c: DriveInfo| #[trigger] lt(a, b) && #[trigger] lt(b, c) implies lt(a, c) by {
        if !(a.mount_point@ == "/"@) && !(b.mount_point@ == "/"@) && !(c.mount_point@ == "/"@) {
            lemma_lex_lt_transitive(encode_utf8(a.name@), encode_utf8(b.name@), encode_utf8(c.name@));
        }
    }
    assert forall|a: DriveInfo| !#[trigger] lt(a, a) by {
        lemma_lex_lt_irreflexive(encode_utf8(a.name@));
    }
}

proof fn lemma_insert_unique_devices(before: Seq<DriveInfo>, x: DriveInfo, p: int)
    requires
        0 <= p <= before.len(),
        forall|a: int, b: int| 0 <= a < b < before.len() ==> (#[trigger] before[a]).device@ != (#[trigger] before[b]).device@,
        forall|m: int| 0 <= m < before.len() ==> (#[trigger] before[m]).device@ != x.device@,
    ensures
        forall|a: int, b: int| 0 <= a < b < before.insert(p, x).len() ==> (#[trigger] before.insert(p, x)[a]).device@ != (#[trigger] before.insert(p, x)[b]).device@,
{
    let out = before.insert(p, x);
    assert forall|a: int, b: int| 0 <= a < b < out.len() implies (#[trigger] out[a]).device@ != (#[trigger] out[b]).device@ by {
        let oa = if a < p { a } else if a == p { -1 } else { a - 1 };
        let ob = if b < p { b } else if b == p { -1 } else { b - 1 };
        if oa >= 0 && ob >= 0 {
            assert(out[a] == before[oa] && out[b] == before[ob]);
        } else if oa == -1 {
            assert(out[b] == before[ob]);
        } else {
            assert(out[a] == before[oa]);
        }
    }
}

fn dedup_drives(candidates: &Vec<DriveInfo>) -> (kept: Vec<DriveInfo>)
    ensures
        forall|j: int| 0 <= j < kept@.len() ==> winner(candidates@, (#[trigger] kept@[j]).device@) == Some(kept@[j]),
        forall|a: int, b: int| 0 <= a < b < kept@.len() ==> (#[trigger] kept@[a]).device@ != (#[trigger] kept@[b]).device@,
        forall|k: int| 0 <= k < candidates@.len() ==> exists|j: int| 0 <= j < kept@.len() && (#[trigger] kept@[j]).device@ == (#[trigger] candidates@[k]).device@,
{
    let ghost c = candidates@;
    let mut kept: Vec<DriveInfo> = Vec::new();
    let mut i: usize = 0;
    while i < candidates.len()
        invariant
            i <= candidates.len(),
            c == candidates@,
            forall|j: int| 0 <= j < kept@.len() ==> winner(c.take(i as int), (#[trigger] kept@[j]).device@) == Some(kept@[j]),
            forall|a: int, b: int| 0 <= a < b < kept@.len() ==> (#[trigger] kept@[a]).device@ != (#[trigger] kept@[b]).device@,
            forall|k: int| 0 <= k < i ==> exists|j: int| 0 <= j < kept@.len() && (#[trigger] kept@[j]).device@ == (#[trigger] c[k]).device@,
            forall|d: Seq<char>| #[trigger] winner(c.take(i as int), d) is Some ==> exists|j: int| 0 <= j < kept@.len() && kept@[j].device@ == d,
        decreases candidates.len() - i,
    {
        let x = copy_drive(&candidates[i]);
        let ghost t = c.take(i + 1);
        assert(t.drop_last() =~= c.take(i as int));
        assert(t.last() == x);
        let mut j: usize = 0;
        let mut found = false;
        while j < kept.len()
            invariant_except_break
                !found,
            invariant
                j <= kept.len(),
                forall|m: int| 0 <= m < j ==> (#[trigger] kept@[m]).device@ != x.device@,
            ensures
                found ==> j < kept.len() && kept@[j as int].device@ == x.device@,
                !found ==> j == kept.len(),
            decreases kept.len() - j,
        {
            if str_eq(kept[j].device.as_str(), x.device.as_str()) {
                found = true;
                break;
            }
            j = j + 1;
        }
        let ghost old_kept = kept@;
        if found {
            if prefer_drive(&x, &kept[j]) {
                kept.set(j, x);
            }
            proof {
                assert forall|m: int| 0 <= m < kept@.len() implies winner(t, (#[trigger] kept@[m]).device@) == Some(kept@[m]) by {
                    if m != j {
                        assert(old_kept[m].device@ != x.device@);
                    }
                }
            }
        } else {
            proof {
                assert(winner(c.take(i as int), x.device@) is None);
            }
            kept.push(x);
            proof {
                assert forall|m: int| 0 <= m < kept@.len() implies winner(t, (#[trigger] kept@[m]).device@) == Some(kept@[m]) by {
                    if m < old_kept.len() {
                        assert(old_kept[m].device@ != x.device@);
                        assert(kept@[m] == old_kept[m]);
                    }
                }
            }
        }
        proof {
            assert forall|k: int| 0 <= k < i + 1 implies exists|m: int| 0 <= m < kept@.len() && (#[trigger] kept@[m]).device@ == (#[trigger] c[k]).device@ by {
                if k == i {
                    if found {
                        assert(kept@[j as int].device@ == c[k].device@);
                    } else {
                        assert(kept@[old_kept.len() as int].device@ == c[k].device@);
                    }
                } else {
                    let m0 = choose|m0: int| 0 <= m0 < old_kept.len() && old_kept[m0].device@ == c[k].device@;
                    assert(kept@[m0].device@ == c[k].device@);
                }
            }
            assert forall|d: Seq<char>| #[trigger] winner(t, d) is Some implies exists|m: int| 0 <= m < kept@.len() && kept@[m].device@ == d by {
                if d == x.device@ {
                    if found {
                        assert(kept@[j as int].device@ == d);
                    } else {
                        assert(kept@[old_kept.len() as int].device@ == d);
                    }
                } else {
                    assert(winner(c.take(i as int), d) is Some);
                    let m0 = choose|m0: int| 0 <= m0 < old_kept.len() && old_kept[m0].device@ == d;
                    assert(kept@[m0].device@ == d);
                }
            }
        }
        i = i + 1;
    }
    assert(c.take(candidates.len() as int) =~= c);
    kept
}

fn insert_sorted_drive(out: &mut Vec<DriveInfo>, x: DriveInfo)
    requires
        sorted_by(old(out)@, |a: DriveInfo, b: DriveInfo| drive_lt(a, b)),
    ensures
        sorted_by(final(out)@, |a: DriveInfo, b: DriveInfo| drive_lt(a, b)),
        exists|p: int| 0 <= p <= old(out)@.len() && final(out)@ == old(out)@.insert(p, x),
{
    let mut p: usize = 0;
    while p < out.len() && !drive_less(&x, &out[p])
        invariant
            p <= out.len(),
            forall|m: int| 0 <= m < p ==> !drive_lt(x, #[trigger] out@[m]),
        decreases out.len() - p,
    {
        p = p + 1;
    }
    proof {
        lemma_drive_lt_order();
        lemma_insert_sorted(out@, x, p as int, |a: DriveInfo, b: DriveInfo| drive_lt(a, b));
    }
    out.insert(p, x);
}

fn sort_drives(kept: &Vec<DriveInfo>) -> (out: Vec<DriveInfo>)
    requires
        forall|a: int, b: int| 0 <= a < b < kept@.len() ==> (#[trigger] kept@[a]).device@ != (#[trigger] kept@[b]).device@,
    ensures
        sorted_by(out@, |a: DriveInfo, b: DriveInfo| drive_lt(a, b)),
        crate::order::drawn_from(out@, kept@, kept@.len() as int),
        crate::order::holds_all(out@, kept@, kept@.len() as int),
        forall|a: int, b: int| 0 <= a < b < out@.len() ==> (#[trigger] out@[a]).device@ != (#[trigger] out@[b]).device@,
{
    let mut out: Vec<DriveInfo> = Vec::new();
    let mut i: usize = 0;
    while i < kept.len()
        invariant
            i <= kept.len(),
            sorted_by(out@, |a: DriveInfo, b: DriveInfo| drive_lt(a, b)),
            forall|a: int, b: int| 0 <= a < b < kept@.len() ==> (#[trigger] kept@[a]).device@ != (#[trigger] kept@[b]).device@,
            crate::order::drawn_from(out@, kept@, i as int),
            crate::order::holds_all(out@, kept@, i as int),
            forall|a: int, b: int| 0 <= a < b < out@.len() ==> (#[trigger] out@[a]).device@ != (#[trigger] out@[b]).device@,
        decreases kept.len() - i,
    {
        let x = copy_drive(&kept[i]);
        let ghost before = out@;
        proof {
            assert forall|m: int| 0 <= m < before.len() implies (#[trigger] before[m]).device@ != x.device@ by {
                let k = choose|k: int| 0 <= k < i && kept@[k] == before[m];
                assert(kept@[k].device@ != kept@[i as int].device@);
            }
        }
        insert_sorted_drive(&mut out, x);
        proof {
            let p = choose|p: int| 0 <= p <= before.len() && out@ == before.insert(p, x);
            crate::order::lemma_insert_members(before, x, p, kept@, i as int);
            lemma_insert_unique_devices(before, x, p);
        }
        i = i + 1;
    }
    out
}

/// One drive per device among `candidates`, the preferred one for each device
/// (`prefer_drive`), listed with the root drive first and then by name.
pub fn arrange_drives(candidates: &Vec<DriveInfo>) -> (r: Vec<DriveInfo>)
    ensures
        arranged(candidates@, r@),
{
    let ghost c = candidates@;
    let kept = dedup_drives(candidates);
    let out = sort_drives(&kept);
    proof {
        let kc = kept@;
        assert forall|m: int| 0 <= m < out@.len() implies winner(c, (#[trigger] out@[m]).device@) == Some(out@[m]) by {
            let k = choose|k: int| 0 <= k < kc.len() && kc[k] == out@[m];
        }
        assert forall|k: int| 0 <= k < c.len() implies exists|m: int| 0 <= m < out@.len() && (#[trigger] out@[m]).device@ == (#[trigger] c[k]).device@ by {
            let j = choose|j: int| 0 <= j < kc.len() && kc[j].device@ == c[k].device@;
            let m = choose|m: int| 0 <= m < out@.len() && out@[m] == kc[j];
        }
    }
    out
}


/// The candidate drives arranged for the drive view: one per device (the
/// mount each device prefers), root first, then by name.
pub fn sorted_drive_list(candidates: Vec<DriveInfo>) -> (r: DriveList)
    ensures
        arranged(candidates@, r.drives@),
{
    DriveList { drives: arrange_drives(&candidates) }
}

/// What the system says of one mount: the space of its file system, its
/// label, and whether its block device is removable.
pub struct MountProbe {
    pub total_space: u64,
    pub available_space: u64,
    pub name: String,
    pub removable_device: bool,
}

/// `d` is the drive shown for the mount table entry `t` (device, mount point,
/// file system, options) with what `p` says of it: its file system reports
/// space, the used space is what is not available, it is removable where its
/// device is or it is mounted under `/media` or `/run/media`, and read-only
/// where its options include `ro`.
#[verifier::opaque]
pub open spec fn drive_of_mount(t: (Seq<char>, Seq<char>, Seq<char>, Seq<char>), p: MountProbe, d: DriveInfo) -> bool {
    &&& p.total_space > 0
    &&& d.device@ == t.0
    &&& d.mount_point@ == t.1
    &&& d.fs_type@ == t.2
    &&& d.name@ == p.name@
    &&& d.total_space == p.total_space
    &&& d.available_space == p.available_space
    &&& d.used_space == (if p.total_space >= p.available_space {
        (p.total_space - p.available_space) as u64
    } else {
        0
    })
    &&& d.is_removable == (p.removable_device || user_media_spec(t.1))
    &&& d.is_readonly == read_only_spec(t.3)
}

proof fn lemma_entries_included(ls: Seq<Seq<char>>)
    ensures
        forall|i: int|
            0 <= i < entries_from(ls).len() ==> include_spec(
                (#[trigger] entries_from(ls)[i]).0,
                entries_from(ls)[i].1,
                entries_from(ls)[i].2,
            ),
    decreases ls.len(),
{
    if ls.len() > 0 {
        lemma_entries_included(ls.drop_last());
        let prev = entries_from(ls.drop_last());
        let cur = entries_from(ls);
        assert forall|i: int| 0 <= i < cur.len() implies include_spec(
            (#[trigger] cur[i]).0,
            cur[i].1,
            cur[i].2,
        ) by {
            if i < prev.len() {
                assert(cur[i] == prev[i]);
            }
        }
    }
}

/// Every drive that an arrangement of candidates built from the mount
/// entries keeps comes from one of those entries.
#[verifier::spinoff_prover]
proof fn lemma_kept_from_entries(
    es: Seq<(Seq<char>, Seq<char>, Seq<char>, Seq<char>)>,
    probes: Seq<MountProbe>,
    c: Seq<DriveInfo>,
    drives: Seq<DriveInfo>,
)
    requires
        arranged(c, drives),
        from_entries(es, probes, c, es.len() as int),
        forall|i: int| 0 <= i < es.len() ==> include_spec((#[trigger] es[i]).0, es[i].1, es[i].2),
    ensures
        forall|j: int|
            0 <= j < drives.len() ==> exists|m: int|
                0 <= m < es.len() && m < probes.len() && drive_of_mount(#[trigger] es[m], probes[m], #[trigger] drives[j])
                    && include_spec(es[m].0, es[m].1, es[m].2),
{
    assert forall|j: int| 0 <= j < drives.len() implies exists|m: int|
        0 <= m < es.len() && m < probes.len() && drive_of_mount(#[trigger] es[m], probes[m], #[trigger] drives[j])
            && include_spec(es[m].0, es[m].1, es[m].2) by {
        let d = drives[j];
        assert(winner(c, d.device@) == Some(d));
        lemma_winner_is_candidate(c, d.device@);
        let k = choose|k: int| 0 <= k < c.len() && c[k] == d;
        let m = choose|m: int| 0 <= m < es.len() && m < probes.len() && m < es.len() && drive_of_mount(#[trigger] es[m], probes[m], #[trigger] c[k]);
        assert(include_spec(es[m].0, es[m].1, es[m].2));
        assert(drive_of_mount(es[m], probes[m], drives[j]));
    }
}

proof fn lemma_winner_is_candidate(c: Seq<DriveInfo>, dev: Seq<char>)
    ensures
        winner(c, dev) matches Some(w) ==> c.contains(w),
    decreases c.len(),
{
    if c.len() > 0 {
        lemma_winner_is_candidate(c.drop_last(), dev);
        let w = winner(c.drop_last(), dev);
        if w is Some {
            assert(c.drop_last().contains(w->0));
            let k = choose|k: int| 0 <= k < c.drop_last().len() && c.drop_last()[k] == w->0;
            assert(c[k] == w->0);
        }
        assert(c[c.len() - 1] == c.last());
    }
}

/// `c` holds the drives of those of the first `n` entries `es` whose file
/// system reports space, one each, in the order of the mount table.
pub open spec fn entry_drives(
    es: Seq<(Seq<char>, Seq<char>, Seq<char>, Seq<char>)>,
    probes: Seq<MountProbe>,
    c: Seq<DriveInfo>,
    n: int,
) -> bool
    decreases n,
{
    if n <= 0 {
        c.len() == 0
    } else if probes[n - 1].total_space > 0 {
        &&& c.len() > 0
        &&& drive_of_mount(es[n - 1], probes[n - 1], c.last())
        &&& entry_drives(es, probes, c.drop_last(), n - 1)
    } else {
        entry_drives(es, probes, c, n - 1)
    }
}

/// Each of the drives `c` is the drive of one of the first `n` entries `es`.
pub open spec fn from_entries(
    es: Seq<(Seq<char>, Seq<char>, Seq<char>, Seq<char>)>,
    probes: Seq<MountProbe>,
    c: Seq<DriveInfo>,
    n: int,
) -> bool {
    forall|k: int|
        0 <= k < c.len() ==> exists|m: int|
            0 <= m < n && m < probes.len() && m < es.len() && drive_of_mount(#[trigger] es[m], probes[m], #[trigger] c[k])
}

/// Each of the first `n` entries `es` whose file system reports space has its
/// drive among `c`.
pub open spec fn covers_entries(
    es: Seq<(Seq<char>, Seq<char>, Seq<char>, Seq<char>)>,
    probes: Seq<MountProbe>,
    c: Seq<DriveInfo>,
    n: int,
) -> bool {
    forall|m: int|
        0 <= m < n && m < es.len() && m < probes.len() && (#[trigger] probes[m]).total_space > 0 ==> exists|k: int|
            0 <= k < c.len() && drive_of_mount(es[m], probes[m], #[trigger] c[k])
}

/// Adding the drive of entry `i` to the candidates built from the entries
/// before it keeps each candidate tied to its entry and each entry with
/// space to a candidate.
proof fn lemma_candidate_added(
    es: Seq<(Seq<char>, Seq<char>, Seq<char>, Seq<char>)>,
    probes: Seq<MountProbe>,
    before: Seq<DriveInfo>,
    x: DriveInfo,
    i: int,
)
    requires
        0 <= i < es.len(),
        i < probes.len(),
        drive_of_mount(es[i], probes[i], x),
        from_entries(es, probes, before, i),
        covers_entries(es, probes, before, i),
    ensures
        from_entries(es, probes, before.push(x), i + 1),
        covers_entries(es, probes, before.push(x), i + 1),
{
    let after = before.push(x);
    assert forall|k: int| 0 <= k < after.len() implies exists|m: int|
        0 <= m < i + 1 && m < probes.len() && m < es.len() && drive_of_mount(#[trigger] es[m], probes[m], #[trigger] after[k]) by {
        if k == before.len() {
            assert(after[k] == x);
            assert(drive_of_mount(es[i], probes[i], after[k]));
        } else {
            assert(after[k] == before[k]);
            let m = choose|m: int| 0 <= m < i && m < probes.len() && m < es.len() && drive_of_mount(#[trigger] es[m], probes[m], #[trigger] before[k]);
            assert(drive_of_mount(es[m], probes[m], after[k]));
        }
    }
    assert forall|m: int| 0 <= m < i + 1 && m < es.len() && m < probes.len() && (#[trigger] probes[m]).total_space > 0 implies exists|k: int|
        0 <= k < after.len() && drive_of_mount(es[m], probes[m], #[trigger] after[k]) by {
        if m == i {
            assert(after[before.len() as int] == x);
            assert(drive_of_mount(es[m], probes[m], after[before.len() as int]));
        } else {
            let k = choose|k: int| 0 <= k < before.len() && drive_of_mount(es[m], probes[m], #[trigger] before[k]);
            assert(after[k] == before[k]);
            assert(drive_of_mount(es[m], probes[m], after[k]));
        }
    }
}

/// The drives the drive view shows, from the mount table `mounts` and what
/// the system says of each of its shown entries, in order (`probes`): one per
/// device, of the entries whose file system reports space, root first and
/// then by name. Each is a block device under `/dev/` with a shown file
/// system, not mounted at a hidden place.
#[verifier::spinoff_prover]
pub fn list_drives(mounts: &str, probes: &Vec<MountProbe>) -> (r: DriveList)
    requires
        table_decodable(mounts@),
    ensures
        exists|c: Seq<DriveInfo>|
            #![trigger arranged(c, r.drives@)]
            arranged(c, r.drives@) && entry_drives(
                entries_from(lines(mounts@)),
                probes@,
                c,
                if entries_from(lines(mounts@)).len() <= probes@.len() {
                    entries_from(lines(mounts@)).len() as int
                } else {
                    probes@.len() as int
                },
            ) && from_entries(
                entries_from(lines(mounts@)),
                probes@,
                c,
                entries_from(lines(mounts@)).len() as int,
            ) && covers_entries(
                entries_from(lines(mounts@)),
                probes@,
                c,
                entries_from(lines(mounts@)).len() as int,
            ),
        forall|j: int|
            0 <= j < r.drives@.len() ==> exists|i: int|
                0 <= i < entries_from(lines(mounts@)).len() && i < probes@.len() && drive_of_mount(
                    #[trigger] entries_from(lines(mounts@))[i],
                    probes@[i],
                    #[trigger] r.drives@[j],
                ) && include_spec(
                    entries_from(lines(mounts@))[i].0,
                    entries_from(lines(mounts@))[i].1,
                    entries_from(lines(mounts@))[i].2,
                ),
{
    let ghost es = entries_from(lines(mounts@));
    let entries = mount_entries(mounts);
    let mut candidates: Vec<DriveInfo> = Vec::new();
    let mut i: usize = 0;
    while i < entries.len() && i < probes.len()
        invariant
            i <= entries.len(),
            entries@.map_values(|e: MountEntry| entry_view(e)) == es,
            i <= probes@.len(),
            entry_drives(es, probes@, candidates@, i as int),
            from_entries(es, probes@, candidates@, i as int),
            covers_entries(es, probes@, candidates@, i as int),
        decreases entries.len() - i,
    {
        let p = &probes[i];
        let d = drive_from_mount(&entries[i], p.total_space, p.available_space, p.name.clone(), p.removable_device);
        let ghost before = candidates@;
        let ghost t = es[i as int];
        assert(entry_view(entries@[i as int]) == t);
        match d {
            Some(x) => {
                assert(drive_of_mount(t, probes@[i as int], x)) by {
                    reveal(drive_of_mount);
                }
                proof {
                    lemma_candidate_added(es, probes@, before, x, i as int);
                }
                candidates.push(x);
                proof {
                    assert(candidates@ == before.push(x));
                    assert(candidates@.drop_last() =~= before);
                    assert(entry_drives(es, probes@, candidates@, i + 1));
                }
            },
            None => {
                assert(probes@[i as int].total_space == 0);
                assert(entry_drives(es, probes@, candidates@, i + 1));
            },
        }
        i = i + 1;
    }
    let ghost c = candidates@;
    let r = sorted_drive_list(candidates);
    proof {
        lemma_entries_included(lines(mounts@));
        assert(entries@.len() == es.len());
        let n = es.len() as int;
        assert forall|k: int| 0 <= k < c.len() implies exists|m: int|
            0 <= m < n && m < probes@.len() && m < es.len() && drive_of_mount(#[trigger] es[m], probes@[m], #[trigger] c[k]) by {
            let m = choose|m: int| 0 <= m < i && m < probes@.len() && m < es.len() && drive_of_mount(#[trigger] es[m], probes@[m], #[trigger] c[k]);
            assert(drive_of_mount(es[m], probes@[m], c[k]));
        }
        assert(from_entries(es, probes@, c, n));
        assert forall|m: int| 0 <= m < n && m < es.len() && m < probes@.len() && (#[trigger] probes@[m]).total_space > 0 implies exists|k: int|
            0 <= k < c.len() && drive_of_mount(es[m], probes@[m], #[trigger] c[k]) by {
            assert(m < i);
        }
        assert(covers_entries(es, probes@, c, n));
        assert(arranged(c, r.drives@));
        lemma_kept_from_entries(es, probes@, c, r.drives@);
        assert(es == entries_from(lines(mounts@)));
    }
    r
}

/// The first drive in `ds` mounted at `mp`.
pub open spec fn drive_at(ds: Seq<DriveInfo>, mp: Seq<char>) -> Option<DriveInfo>
    decreases ds.len(),
{
    if ds.len() == 0 {
        None
    } else if ds[0].mount_point@ == mp {
        Some(ds[0])
    } else {
        drive_at(ds.drop_first(), mp)
    }
}

/// The drive mounted at `mount_point` (normalised), or the error naming it.
pub open spec fn drive_info_spec(mount_point: Seq<char>, ds: Seq<DriveInfo>, r: Result<DriveInfo, String>) -> bool {
    let mp = normalized(mount_point);
    match drive_at(ds, mp) {
        Some(d) => r == Ok::<DriveInfo, String>(d),
        None => r matches Err(e) && e@ == "Drive not found: "@ + mp,
    }
}

/// The drive of `drives` mounted at `mount_point`.
pub fn get_drive_info(mount_point: String, drives: &DriveList) -> (r: Result<DriveInfo, String>)
    ensures
        drive_info_spec(mount_point@, drives.drives@, r),
{
    let mp = normalize_path(mount_point);
    let ghost ds = drives.drives@;
    let mut i: usize = 0;
    assert(ds.skip(0) =~= ds);
    while i < drives.drives.len()
        invariant
            i <= drives.drives.len(),
            ds == drives.drives@,
            mp@ == normalized(mount_point@),
            drive_at(ds, mp@) == drive_at(ds.skip(i as int), mp@),
        decreases drives.drives.len() - i,
    {
        assert(ds.skip(i as int).drop_first() =~= ds.skip(i + 1));
        assert(ds.skip(i as int)[0] == ds[i as int]);
        if str_eq(drives.drives[i].mount_point.as_str(), mp.as_str()) {
            return Ok(copy_drive(&drives.drives[i]));
        }
        i = i + 1;
    }
    assert(ds.skip(i as int) =~= Seq::<DriveInfo>::empty());
    Err(concat("Drive not found: ", mp.as_str()))
}

/// The path lies on the drive mounted at `mp`.
pub open spec fn on_drive(path: Seq<char>, mp: Seq<char>) -> bool {
    if mp == "/"@ {
        starts_with(path, "/"@)
    } else {
        path == mp || starts_with(path, mp + "/"@)
    }
}

/// `ds[i]` is the drive a path lies on: among the drives it lies on, the one
/// with the longest mount point, the first of those in list order.
pub open spec fn best_drive(ds: Seq<DriveInfo>, path: Seq<char>, i: int) -> bool {
    &&& 0 <= i < ds.len()
    &&& on_drive(path, ds[i].mount_point@)
    &&& forall|j: int|
        0 <= j < ds.len() && on_drive(path, (#[trigger] ds[j]).mount_point@) ==> byte_len(ds[j].mount_point@) < byte_len(ds[i].mount_point@) || (byte_len(ds[j].mount_point@) == byte_len(ds[i].mount_point@) && j >= i)
}

fn is_on_drive(path: &str, mount_point: &str) -> (r: bool)
    ensures
        r == on_drive(path@, mount_point@),
{
    if str_eq(mount_point, "/") {
        return str_starts_with(path, "/");
    }
    let below = concat(mount_point, "/");
    str_eq(path, mount_point) || str_starts_with(path, below.as_str())
}

/// The drive that `path` lies on: the one with the longest mount point that
/// contains it.
pub fn drive_for_path(path: &str, drives: &DriveList) -> (r: Option<DriveInfo>)
    ensures
        r is None <==> forall|j: int| 0 <= j < drives.drives@.len() ==> !on_drive(path@, (#[trigger] drives.drives@[j]).mount_point@),
        r matches Some(d) ==> exists|i: int| best_drive(drives.drives@, path@, i) && drives.drives@[i] == d,
{
    let ghost ds = drives.drives@;
    let mut best: Option<usize> = None;
    let mut best_len: usize = 0;
    let mut i: usize = 0;
    while i < drives.drives.len()
        invariant
            i <= drives.drives.len(),
            ds == drives.drives@,
            best is None ==> forall|j: int| 0 <= j < i ==> !on_drive(path@, (#[trigger] ds[j]).mount_point@),
            best matches Some(b) ==> b < i && best_len == byte_len(ds[b as int].mount_point@) && on_drive(path@, ds[b as int].mount_point@) && forall|j: int|
                0 <= j < i && on_drive(path@, (#[trigger] ds[j]).mount_point@) ==> byte_len(ds[j].mount_point@) < best_len || (byte_len(ds[j].mount_point@) == best_len && j >= b),
        decreases drives.drives.len() - i,
    {
        let mp = &drives.drives[i].mount_point;
        if is_on_drive(path, mp.as_str()) {
            let len = bytes_of(mp.as_str()).len();
            match best {
                None => {
                    best = Some(i);
                    best_len = len;
                },
                Some(b) => {
                    if len > best_len {
                        best = Some(i);
                        best_len = len;
                    }
                },
            }
        }
        i = i + 1;
    }
    match best {
        Some(b) => {
            assert(best_drive(ds, path@, b as int));
            Some(copy_drive(&drives.drives[b]))
        },
        None => None,
    }
}

/// A command to run.
pub struct DriveCommand {
    pub program: String,
    pub args: Vec<String>,
}

/// How to eject a drive: the commands to try in turn until one succeeds.
pub struct EjectPlan {
    pub name: String,
    pub commands: Vec<DriveCommand>,
}

fn command(program: &str, a: &str, b: &str, c: &str) -> (r: DriveCommand)
    ensures
        r.program@ == program@,
        string_list_view(r.args@) == seq![a@, b@, c@],
{
    let args = vec![a.to_string(), b.to_string(), c.to_string()];
    assert(string_list_view(args@) =~= seq![a@, b@, c@]);
    DriveCommand { program: program.to_string(), args }
}

/// The plan to eject the drive `d`: `gio mount -e`, then `gio mount -u` on its
/// mount point, then `udisksctl unmount -b` on its device.
pub open spec fn eject_plan_spec(d: DriveInfo, p: EjectPlan) -> bool {
    &&& p.name@ == d.name@
    &&& p.commands@.len() == 3
    &&& p.commands@[0].program@ == "gio"@
    &&& string_list_view(p.commands@[0].args@) == seq!["mount"@, "-e"@, d.mount_point@]
    &&& p.commands@[1].program@ == "gio"@
    &&& string_list_view(p.commands@[1].args@) == seq!["mount"@, "-u"@, d.mount_point@]
    &&& p.commands@[2].program@ == "udisksctl"@
    &&& string_list_view(p.commands@[2].args@) == seq!["unmount"@, "-b"@, d.device@]
}

/// How to eject the drive mounted at `mount_point`: an error where no drive is
/// mounted there or it is not removable.
pub fn eject_drive(mount_point: String, drives: &DriveList) -> (r: Result<EjectPlan, String>)
    ensures
        ({
            let mp = normalized(mount_point@);
            match drive_at(drives.drives@, mp) {
                None => r matches Err(e) && e@ == "Drive not found: "@ + mp,
                Some(d) => if !d.is_removable {
                    r matches Err(e) && e@ == d.name@ + " is not removable"@
                } else {
                    r matches Ok(p) && eject_plan_spec(d, p)
                },
            }
        }),
{
    let drive = match get_drive_info(mount_point, drives) {
        Ok(d) => d,
        Err(e) => return Err(e),
    };
    if !drive.is_removable {
        return Err(concat(drive.name.as_str(), " is not removable"));
    }
    let commands = vec![
        command("gio", "mount", "-e", drive.mount_point.as_str()),
        command("gio", "mount", "-u", drive.mount_point.as_str()),
        command("udisksctl", "unmount", "-b", drive.device.as_str()),
    ];
    Ok(EjectPlan { name: drive.name, commands })
}

impl EjectPlan {
    /// The error once every command failed with the errors `errors`.
    pub fn failure(&self, errors: &Vec<String>) -> (r: String)
        ensures
            r@ == "Could not eject "@ + self.name@ + ": "@ + join(string_list_view(errors@), "; "@),
    {
        let joined = join_strings(errors, "; ");
        let head = concat("Could not eject ", self.name.as_str());
        let head = concat(head.as_str(), ": ");
        concat(head.as_str(), joined.as_str())
    }
}

/// The error of a drive command that failed: its trimmed error output, or
/// else its exit status.
pub fn drive_command_error(program: &str, stderr: &str, status: &str) -> (r: String)
    ensures
        trim(stderr@).len() == 0 ==> r@ == program@ + " exited with "@ + status@,
        trim(stderr@).len() > 0 ==> r@ == program@ + ": "@ + trim(stderr@),
{
    let t = crate::text::trim_str(stderr);
    if t.as_str().is_empty() {
        let head = concat(program, " exited with ");
        concat(head.as_str(), status)
    } else {
        let head = concat(program, ": ");
        concat(head.as_str(), t.as_str())
    }
}

} // verus!
