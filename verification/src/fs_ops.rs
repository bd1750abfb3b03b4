//! Files and directories as the front end lists them: the entry of each
//! file, the order of a listing, which files are images, and what reading a
//! text file or asking for a thumbnail answers.
use vstd::prelude::*;
use crate::order::{irreflexive, lemma_insert_sorted, sorted_by, transitive};
use crate::paths::{extension, file_name, join, parent, path_extension, path_file_name, path_join, path_parent, path_same, same_path};
use crate::status_map::{chars_lt, lemma_chars_lt_irreflexive, lemma_chars_lt_transitive, str_lt};
use crate::text::{
    concat, lossy_utf8, starts_with, str_eq, str_starts_with, string_from_utf8, string_from_utf8_lossy,
    trim_start,
};

verus! {

broadcast use vstd::string::group_string_axioms;

/// A file or directory as the front end shows it.
pub struct FileEntry {
    pub name: String,
    pub path: String,
    pub is_dir: bool,
    pub is_file: bool,
    pub is_symlink: bool,
    pub is_hidden: bool,
    pub size: u64,
    pub modified: Option<i64>,
    pub created: Option<i64>,
    pub accessed: Option<i64>,
    pub mime_type: Option<String>,
    pub extension: Option<String>,
    pub permissions: u32,
    pub uid: u32,
    pub gid: u32,
}

/// A directory's entries, in display order, with their count and total size.
pub struct DirectoryContents {
    pub path: String,
    pub entries: Vec<FileEntry>,
    pub total_items: usize,
    pub total_size: u64,
}

/// The user's home directory and the usual folders in it.
pub struct UserDirs {
    pub home: String,
    pub documents: Option<String>,
    pub downloads: Option<String>,
    pub pictures: Option<String>,
    pub videos: Option<String>,
    pub music: Option<String>,
    pub desktop: Option<String>,
}

/// What kind of thing a path names: a directory, a regular file, or
/// something else (a device, a socket, a pipe, a link).
#[derive(Clone, Copy, Debug, PartialEq, Eq, Structural)]
pub enum EntryKind {
    Directory,
    File,
    Other,
}

/// What the file system says of a path: of the link itself, and where it is
/// a symbolic link, the kind and size of its target (`None` for a broken
/// link).
pub struct EntryMetadata {
    pub is_symlink: bool,
    pub kind: EntryKind,
    pub len: u64,
    pub target: Option<(EntryKind, u64)>,
    pub modified: Option<i64>,
    pub created: Option<i64>,
    pub accessed: Option<i64>,
    pub mode: u32,
    pub uid: u32,
    pub gid: u32,
}

/// The media type that `mime_guess` gives first for the extension of `path`.
pub uninterp spec fn guessed_mime(path: Seq<char>) -> Option<Seq<char>>;

/// The media type guessed from the extension of `path`
/// (`mime_guess::from_path(path).first()`). Its result is named
/// `guessed_mime`; the table of extensions is not restated.
#[verifier::external_body]
pub(crate) fn get_mime_type(path: &str) -> (r: Option<String>)
    ensures
        match r {
            Some(m) => guessed_mime(path@) == Some(m@),
            None => guessed_mime(path@) is None,
        },
{
    mime_guess::from_path(path).first().map(|m| m.to_string())
}

/// The bytes `b` begin with `p`.
pub open spec fn bytes_start(b: Seq<u8>, p: Seq<u8>) -> bool {
    p.len() <= b.len() && b.take(p.len() as int) == p
}

/// The image type that the first bytes of a file show: PNG, JPEG, GIF, BMP,
/// WebP, or SVG where the text starts with `<svg` after white space.
pub open spec fn sniffed_mime(b: Seq<u8>) -> Option<Seq<char>> {
    if bytes_start(b, seq![0x89u8, 0x50, 0x4e, 0x47, 0x0d, 0x0a, 0x1a, 0x0a]) {
        Some("image/png"@)
    } else if bytes_start(b, seq![0xffu8, 0xd8, 0xff]) {
        Some("image/jpeg"@)
    } else if bytes_start(b, seq![0x47u8, 0x49, 0x46, 0x38, 0x37, 0x61]) || bytes_start(
        b,
        seq![0x47u8, 0x49, 0x46, 0x38, 0x39, 0x61],
    ) {
        Some("image/gif"@)
    } else if bytes_start(b, seq![0x42u8, 0x4d]) {
        Some("image/bmp"@)
    } else if b.len() >= 12 && bytes_start(b, seq![0x52u8, 0x49, 0x46, 0x46]) && b.subrange(8, 12) == seq![
        0x57u8,
        0x45,
        0x42,
        0x50,
    ] {
        Some("image/webp"@)
    } else if starts_with(trim_start(lossy_utf8(b.take(if b.len() < 512 { b.len() as int } else { 512 }))), "<svg"@) {
        Some("image/svg+xml"@)
    } else {
        None
    }
}

fn starts_with_bytes(b: &[u8], p: &[u8]) -> (r: bool)
    ensures
        r == bytes_start(b@, p@),
{
    if p.len() > b.len() {
        return false;
    }
    let mut i: usize = 0;
    while i < p.len()
        invariant
            i <= p.len(),
            p.len() <= b.len(),
            forall|k: int| 0 <= k < i ==> b@[k] == p@[k],
        decreases p.len() - i,
    {
        if b[i] != p[i] {
            assert(b@.take(p.len() as int)[i as int] != p@[i as int]);
            return false;
        }
        i = i + 1;
    }
    assert(b@.take(p.len() as int) =~= p@);
    true
}

/// The image type that the first bytes `bytes` of a file show.
pub fn sniff_image_mime(bytes: &[u8]) -> (r: Option<String>)
    ensures
        match r {
            Some(m) => sniffed_mime(bytes@) == Some(m@),
            None => sniffed_mime(bytes@) is None,
        },
{
    let png: [u8; 8] = [0x89, 0x50, 0x4e, 0x47, 0x0d, 0x0a, 0x1a, 0x0a];
    let jpeg: [u8; 3] = [0xff, 0xd8, 0xff];
    let gif7: [u8; 6] = [0x47, 0x49, 0x46, 0x38, 0x37, 0x61];
    let gif9: [u8; 6] = [0x47, 0x49, 0x46, 0x38, 0x39, 0x61];
    let bmp: [u8; 2] = [0x42, 0x4d];
    let riff: [u8; 4] = [0x52, 0x49, 0x46, 0x46];
    let webp: [u8; 4] = [0x57, 0x45, 0x42, 0x50];
    assert(png@ =~= seq![0x89u8, 0x50, 0x4e, 0x47, 0x0d, 0x0a, 0x1a, 0x0a]);
    assert(jpeg@ =~= seq![0xffu8, 0xd8, 0xff]);
    assert(gif7@ =~= seq![0x47u8, 0x49, 0x46, 0x38, 0x37, 0x61]);
    assert(gif9@ =~= seq![0x47u8, 0x49, 0x46, 0x38, 0x39, 0x61]);
    assert(bmp@ =~= seq![0x42u8, 0x4d]);
    assert(riff@ =~= seq![0x52u8, 0x49, 0x46, 0x46]);
    assert(webp@ =~= seq![0x57u8, 0x45, 0x42, 0x50]);
    if starts_with_bytes(bytes, png.as_slice()) {
        return Some("image/png".to_string());
    }
    if starts_with_bytes(bytes, jpeg.as_slice()) {
        return Some("image/jpeg".to_string());
    }
    if starts_with_bytes(bytes, gif7.as_slice()) || starts_with_bytes(bytes, gif9.as_slice()) {
        return Some("image/gif".to_string());
    }
    if starts_with_bytes(bytes, bmp.as_slice()) {
        return Some("image/bmp".to_string());
    }
    if bytes.len() >= 12 && starts_with_bytes(bytes, riff.as_slice()) {
        let tail = vstd::slice::slice_subrange(bytes, 8, 12);
        if starts_with_bytes(tail, webp.as_slice()) {
            assert(tail@.take(4) =~= tail@);
            return Some("image/webp".to_string());
        }
        assert(bytes@.subrange(8, 12) != webp@) by {
            if bytes@.subrange(8, 12) == webp@ {
                assert(tail@.take(4) =~= tail@);
            }
        }
    }
    let n: usize = if bytes.len() < 512 { bytes.len() } else { 512 };
    let head = string_from_utf8_lossy(vstd::slice::slice_subrange(bytes, 0, n));
    assert(bytes@.subrange(0, n as int) =~= bytes@.take(n as int));
    let text = crate::text::trim_start_str(head.as_str());
    if str_starts_with(text.as_str(), "<svg") {
        return Some("image/svg+xml".to_string());
    }
    None
}

/// What the extension of `path` says of it being an image: a media type under
/// `image/` is the answer, another known type means it is not one, and an
/// unknown or generic type leaves it to the content.
pub enum ImageGuess {
    Image(String),
    NotImage,
    FromContent,
}

/// What the extension of `path` says of it being an image.
pub open spec fn image_guess_spec(path: Seq<char>) -> Option<Option<Seq<char>>> {
    match guessed_mime(path) {
        Some(m) => if starts_with(m, "image/"@) {
            Some(Some(m))
        } else if m != "application/octet-stream"@ {
            Some(None)
        } else {
            None
        },
        None => None,
    }
}

/// What the extension of `path` says of it being an image.
pub fn guess_image_mime(path: &str) -> (r: ImageGuess)
    ensures
        match r {
            ImageGuess::Image(m) => image_guess_spec(path@) == Some(Some(m@)),
            ImageGuess::NotImage => image_guess_spec(path@) == Some(None::<Seq<char>>),
            ImageGuess::FromContent => image_guess_spec(path@) is None,
        },
{
    match get_mime_type(path) {
        Some(m) => {
            if str_starts_with(m.as_str(), "image/") {
                ImageGuess::Image(m)
            } else if !str_eq(m.as_str(), "application/octet-stream") {
                ImageGuess::NotImage
            } else {
                ImageGuess::FromContent
            }
        },
        None => ImageGuess::FromContent,
    }
}

/// The image type of the file `path`: from its extension where that tells,
/// else from its first bytes `head` (`None` where they could not be read).
pub open spec fn image_mime_spec(path: Seq<char>, head: Option<Seq<u8>>) -> Option<Seq<char>> {
    match image_guess_spec(path) {
        Some(answer) => answer,
        None => match head {
            Some(b) => sniffed_mime(b),
            None => None,
        },
    }
}

/// The image type of the file `path`, from its extension or, where that does
/// not tell, from its first bytes `head`.
pub fn detect_image_mime(path: &str, head: Option<&[u8]>) -> (r: Option<String>)
    ensures
        match r {
            Some(m) => image_mime_spec(
                path@,
                match head {
                    Some(b) => Some(b@),
                    None => None,
                },
            ) == Some(m@),
            None => image_mime_spec(
                path@,
                match head {
                    Some(b) => Some(b@),
                    None => None,
                },
            ) is None,
        },
{
    match guess_image_mime(path) {
        ImageGuess::Image(m) => Some(m),
        ImageGuess::NotImage => None,
        ImageGuess::FromContent => match head {
            Some(b) => sniff_image_mime(b),
            None => None,
        },
    }
}

/// The characters of an optional string.
pub open spec fn opt_text(o: Option<String>) -> Option<Seq<char>> {
    match o {
        Some(s) => Some(s@),
        None => None,
    }
}

/// The entry of the file at `path`, from what the file system says of it
/// (`meta`) and its first bytes (`head`): a symbolic link takes its kind and
/// size from its target, a broken one has neither; a file has an extension
/// and a media type, the image type where it is an image.
pub open spec fn entry_spec(path: Seq<char>, meta: EntryMetadata, head: Option<Seq<u8>>, e: FileEntry) -> bool {
    let name = match path_file_name(path) {
        Some(n) => n,
        None => Seq::empty(),
    };
    let (kind, size) = if meta.is_symlink {
        match meta.target {
            Some(t) => t,
            None => (EntryKind::Other, 0u64),
        }
    } else {
        (meta.kind, meta.len)
    };
    let is_dir = kind == EntryKind::Directory;
    let is_file = kind == EntryKind::File;
    &&& e.name@ == name
    &&& e.path@ == path
    &&& e.is_dir == is_dir
    &&& e.is_file == is_file
    &&& e.is_symlink == meta.is_symlink
    &&& e.is_hidden == starts_with(name, "."@)
    &&& e.size == size
    &&& e.modified == meta.modified
    &&& e.created == meta.created
    &&& e.accessed == meta.accessed
    &&& opt_text(e.extension) == (if is_file { path_extension(path) } else { None })
    &&& opt_text(e.mime_type) == (if is_file {
        match image_mime_spec(path, head) {
            Some(m) => Some(m),
            None => guessed_mime(path),
        }
    } else {
        None
    })
    &&& e.permissions == meta.mode
    &&& e.uid == meta.uid
    &&& e.gid == meta.gid
}

/// An entry is never both a directory and a regular file.
pub proof fn lemma_entry_kind_exclusive(path: Seq<char>, meta: EntryMetadata, head: Option<Seq<u8>>, e: FileEntry)
    requires
        entry_spec(path, meta, head, e),
    ensures
        !(e.is_dir && e.is_file),
{
}

/// The entry of the file at `path`.
pub fn file_entry_from_path(path: &str, meta: EntryMetadata, head: Option<&[u8]>) -> (e: FileEntry)
    ensures
        entry_spec(
            path@,
            meta,
            match head {
                Some(b) => Some(b@),
                None => None,
            },
            e,
        ),
{
    let name = match file_name(path) {
        Some(n) => n,
        None => String::new(),
    };
    let is_hidden = str_starts_with(name.as_str(), ".");
    let (kind, size) = if meta.is_symlink {
        match meta.target {
            Some(t) => t,
            None => (EntryKind::Other, 0u64),
        }
    } else {
        (meta.kind, meta.len)
    };
    let is_dir = kind == EntryKind::Directory;
    let is_file = kind == EntryKind::File;
    let ext = if is_file { extension(path) } else { None };
    let mime_type = if is_file {
        match detect_image_mime(path, head) {
            Some(m) => Some(m),
            None => get_mime_type(path),
        }
    } else {
        None
    };
    FileEntry {
        name,
        path: path.to_string(),
        is_dir,
        is_file,
        is_symlink: meta.is_symlink,
        is_hidden,
        size,
        modified: meta.modified,
        created: meta.created,
        accessed: meta.accessed,
        mime_type,
        extension: ext,
        permissions: meta.mode,
        uid: meta.uid,
        gid: meta.gid,
    }
}

/// What `str::to_lowercase` makes of `s`.
pub uninterp spec fn lowercase(s: Seq<char>) -> Seq<char>;

/// `s` in lower case (`str::to_lowercase`). Its result is named `lowercase`;
/// the Unicode case mappings are not restated.
#[verifier::external_body]
fn to_lowercase(s: &str) -> (r: String)
    ensures
        r@ == lowercase(s@),
{
    s.to_lowercase()
}

/// `a` is listed before `b`: directories first, then by name in lower case.
pub open spec fn listed_before(a: FileEntry, b: FileEntry) -> bool {
    if a.is_dir != b.is_dir {
        a.is_dir
    } else {
        chars_lt(lowercase(a.name@), lowercase(b.name@))
    }
}

proof fn lemma_listed_before_order()
    ensures
        transitive(|a: FileEntry, b: FileEntry| listed_before(a, b)),
        irreflexive(|a: FileEntry, b: FileEntry| listed_before(a, b)),
{
    assert forall|a: FileEntry, b: FileEntry, c: FileEntry| #[trigger] listed_before(a, b) && #[trigger] listed_before(b, c) implies listed_before(a, c) by {
        if a.is_dir == b.is_dir && b.is_dir == c.is_dir {
            lemma_chars_lt_transitive(lowercase(a.name@), lowercase(b.name@), lowercase(c.name@));
        }
    }
    assert forall|a: FileEntry| !#[trigger] listed_before(a, a) by {
        lemma_chars_lt_irreflexive(lowercase(a.name@));
    }
}

/// The entry at `path` is one of the mount points `mounts` (the same path,
/// compared by components).
pub open spec fn is_mount(path: Seq<char>, mounts: Seq<Seq<char>>) -> bool {
    exists|k: int| 0 <= k < mounts.len() && path_same(#[trigger] mounts[k], path)
}

/// The entries a listing keeps: not a mount point, and not hidden unless
/// hidden files are shown.
pub open spec fn kept_entries(entries: Seq<FileEntry>, mounts: Seq<Seq<char>>, show_hidden: bool) -> Seq<FileEntry> {
    entries.filter(|e: FileEntry| !is_mount(e.path@, mounts) && (show_hidden || !e.is_hidden))
}

/// The sum of the sizes of `entries`.
pub open spec fn sizes_sum(entries: Seq<FileEntry>) -> int
    decreases entries.len(),
{
    if entries.len() == 0 {
        0
    } else {
        sizes_sum(entries.drop_last()) + entries.last().size
    }
}

proof fn lemma_sizes_sum_nonneg(entries: Seq<FileEntry>)
    ensures
        0 <= sizes_sum(entries),
    decreases entries.len(),
{
    if entries.len() > 0 {
        lemma_sizes_sum_nonneg(entries.drop_last());
    }
}

/// What reading a directory gave: it is missing, it is not a directory, it
/// could not be read, or the entries of what it holds.
pub enum DirectoryListing {
    Missing,
    NotDirectory,
    Unreadable(String),
    Entries(Vec<FileEntry>),
}

/// The listing of the directory `path`: its entries that are not mount points
/// and, unless `show_hidden`, not hidden, directories first and then by name
/// in lower case, with their count and total size.
pub fn list_directory(path: String, show_hidden: bool, listing: DirectoryListing, mount_points: &Vec<String>) -> (r: Result<DirectoryContents, String>)
    requires
        listing matches DirectoryListing::Entries(es) ==> sizes_sum(
            kept_entries(es@, mount_points@.map_values(|m: String| m@), show_hidden),
        ) <= u64::MAX,
    ensures
        match listing {
            DirectoryListing::Missing => r matches Err(e) && e@ == "Path does not exist: "@ + path@,
            DirectoryListing::NotDirectory => r matches Err(e) && e@ == "Path is not a directory: "@ + path@,
            DirectoryListing::Unreadable(e) => r == Err::<DirectoryContents, String>(e),
            DirectoryListing::Entries(es) => r matches Ok(c) && {
                let kept = kept_entries(es@, mount_points@.map_values(|m: String| m@), show_hidden);
                &&& c.path == path
                &&& c.entries@.to_multiset() == kept.to_multiset()
                &&& sorted_by(c.entries@, |a: FileEntry, b: FileEntry| listed_before(a, b))
                &&& c.total_items == kept.len()
                &&& c.total_size == sizes_sum(kept)
            },
        },
{
    let entries = match listing {
        DirectoryListing::Missing => return Err(concat("Path does not exist: ", path.as_str())),
        DirectoryListing::NotDirectory => return Err(concat("Path is not a directory: ", path.as_str())),
        DirectoryListing::Unreadable(e) => return Err(e),
        DirectoryListing::Entries(es) => es,
    };
    let ghost mounts = mount_points@.map_values(|m: String| m@);
    let ghost src = entries@;
    let ghost keep_fn = |e: FileEntry| !is_mount(e.path@, mounts) && (show_hidden || !e.is_hidden);
    let ghost lt = |a: FileEntry, b: FileEntry| listed_before(a, b);
    proof {
        lemma_listed_before_order();
    }
    let mut rest = entries;
    let n0 = rest.len();
    let mut out: Vec<(String, FileEntry)> = Vec::new();
    let ghost mut kept_so_far: Seq<FileEntry> = Seq::empty();
    let mut total: u64 = 0;
    let mut i: usize = 0;
    assert(src.take(0).filter(keep_fn) =~= Seq::<FileEntry>::empty()) by {
        reveal_with_fuel(Seq::<_>::filter, 1);
    }
    assert(out@.map_values(|p: (String, FileEntry)| p.1) =~= Seq::<FileEntry>::empty());
    while rest.len() > 0
        invariant
            i + rest.len() == src.len(),
            src.len() == n0,
            rest@ == src.skip(i as int),
            mounts == mount_points@.map_values(|m: String| m@),
            keep_fn == (|e: FileEntry| !is_mount(e.path@, mounts) && (show_hidden || !e.is_hidden)),
            lt == (|a: FileEntry, b: FileEntry| listed_before(a, b)),
            transitive(lt),
            irreflexive(lt),
            kept_so_far == src.take(i as int).filter(keep_fn),
            sorted_by(out@.map_values(|p: (String, FileEntry)| p.1), lt),
            forall|k: int| 0 <= k < out@.len() ==> (#[trigger] out@[k]).0@ == lowercase(out@[k].1.name@),
            out@.map_values(|p: (String, FileEntry)| p.1).to_multiset() == kept_so_far.to_multiset(),
            total == sizes_sum(kept_so_far),
            sizes_sum(src.filter(keep_fn)) <= u64::MAX,
        decreases rest.len(),
    {
        let x = rest.remove(0);
        assert(x == src[i as int]);
        proof {
            reveal_with_fuel(Seq::<_>::filter, 1);
            assert(src.take(i + 1).drop_last() =~= src.take(i as int));
            assert(rest@ =~= src.skip(i + 1));
        }
        let mut is_mount_point = false;
        let mut m: usize = 0;
        while m < mount_points.len()
            invariant
                m <= mount_points.len(),
                mounts == mount_points@.map_values(|s: String| s@),
                is_mount_point <==> exists|k: int| 0 <= k < m && path_same((#[trigger] mount_points@[k])@, x.path@),
            decreases mount_points.len() - m,
        {
            if same_path(mount_points[m].as_str(), x.path.as_str()) {
                is_mount_point = true;
            }
            m = m + 1;
        }
        proof {
            if is_mount_point {
                let k = choose|k: int| 0 <= k < mount_points@.len() && path_same((#[trigger] mount_points@[k])@, x.path@);
                assert(mounts[k] == mount_points@[k]@);
                assert(path_same(mounts[k], x.path@));
            } else if is_mount(x.path@, mounts) {
                let k = choose|k: int| 0 <= k < mounts.len() && path_same(#[trigger] mounts[k], x.path@);
                assert(mounts[k] == mount_points@[k]@);
                assert(path_same(mount_points@[k]@, x.path@));
            }
        }
        let keep = !is_mount_point && (show_hidden || !x.is_hidden);
        assert(keep == keep_fn(x));
        if keep {
            proof {
                let nk = src.take(i + 1).filter(keep_fn);
                assert(nk == kept_so_far.push(x));
                assert(nk.drop_last() =~= kept_so_far);
                lemma_kept_prefix_sum(src, keep_fn, i + 1);
            }
            total = total + x.size;
            let key = to_lowercase(x.name.as_str());
            let ghost view_before = out@.map_values(|p: (String, FileEntry)| p.1);
            let mut p: usize = 0;
            while p < out.len() && !goes_before(x.is_dir, key.as_str(), &out[p])
                invariant
                    p <= out.len(),
                    key@ == lowercase(x.name@),
                    forall|k: int| 0 <= k < out@.len() ==> (#[trigger] out@[k]).0@ == lowercase(out@[k].1.name@),
                    view_before == out@.map_values(|q: (String, FileEntry)| q.1),
                    forall|k: int| 0 <= k < p ==> !lt(x, #[trigger] view_before[k]),
                    lt == (|a: FileEntry, b: FileEntry| listed_before(a, b)),
                decreases out.len() - p,
            {
                p = p + 1;
            }
            proof {
                lemma_insert_sorted(view_before, x, p as int, lt);
            }
            let ghost xv = x;
            out.insert(p, (key, x));
            proof {
                assert(out@.map_values(|q: (String, FileEntry)| q.1) =~= view_before.insert(p as int, xv));
                kept_so_far = kept_so_far.push(xv);
                broadcast use vstd::seq_lib::group_to_multiset_ensures;
            }
        } else {
            proof {
                assert(src.take(i + 1).filter(keep_fn) =~= kept_so_far);
            }
        }
        i = i + 1;
    }
    assert(src.take(i as int) =~= src);
    let ghost pairs = out@;
    let mut result: Vec<FileEntry> = Vec::new();
    let mut k: usize = 0;
    let n = out.len();
    while out.len() > 0
        invariant
            k + out.len() == n,
            n == pairs.len(),
            out@ == pairs.skip(k as int),
            result@ == pairs.take(k as int).map_values(|p: (String, FileEntry)| p.1),
        decreases out.len(),
    {
        let (_, e) = out.remove(0);
        assert(e == pairs[k as int].1);
        result.push(e);
        proof {
            assert(result@ =~= pairs.take(k + 1).map_values(|p: (String, FileEntry)| p.1));
            assert(out@ =~= pairs.skip(k + 1));
        }
        k = k + 1;
    }
    assert(pairs.take(k as int) =~= pairs);
    let count = result.len();
    proof {
        broadcast use vstd::seq_lib::group_to_multiset_ensures;
        assert(result@.to_multiset().len() == result@.len());
        assert(kept_so_far.to_multiset().len() == kept_so_far.len());
    }
    Ok(DirectoryContents { path, entries: result, total_items: count, total_size: total })
}

fn goes_before(is_dir: bool, key: &str, other: &(String, FileEntry)) -> (r: bool)
    ensures
        r == (if is_dir != other.1.is_dir { is_dir } else { chars_lt(key@, other.0@) }),
{
    if is_dir != other.1.is_dir {
        is_dir
    } else {
        str_lt(key, other.0.as_str())
    }
}

proof fn lemma_kept_prefix_sum(src: Seq<FileEntry>, keep_fn: spec_fn(FileEntry) -> bool, i: int)
    requires
        0 <= i <= src.len(),
    ensures
        sizes_sum(src.take(i).filter(keep_fn)) <= sizes_sum(src.filter(keep_fn)),
    decreases src.len() - i,
{
    if i < src.len() {
        lemma_kept_prefix_sum(src, keep_fn, i + 1);
        reveal_with_fuel(Seq::<_>::filter, 1);
        assert(src.take(i + 1).drop_last() =~= src.take(i));
        let a = src.take(i).filter(keep_fn);
        if keep_fn(src[i]) {
            assert(src.take(i + 1).filter(keep_fn) == a.push(src[i]));
            assert(a.push(src[i]).drop_last() =~= a);
        } else {
            assert(src.take(i + 1).filter(keep_fn) == a);
        }
    } else {
        assert(src.take(i) =~= src);
    }
}

/// What reading a text file answers: where it is larger than `max_bytes`
/// (1 MiB unless given), the decoded first `max_bytes` bytes with invalid
/// sequences replaced; else its text, which must be valid UTF-8.
pub fn read_text_file(content: Vec<u8>, max_bytes: Option<usize>) -> (r: Result<String, String>)
    ensures
        ({
            let max = match max_bytes {
                Some(m) => m as int,
                None => 1048576,
            };
            if content@.len() > max {
                r matches Ok(s) && s@ == lossy_utf8(content@.take(max))
            } else if vstd::utf8::valid_utf8(content@) {
                r matches Ok(s) && s@ == vstd::utf8::decode_utf8(content@)
            } else {
                r matches Err(e) && e@ == "File is not valid UTF-8 text"@
            }
        }),
{
    let max: usize = match max_bytes {
        Some(m) => m,
        None => 1048576,
    };
    if content.len() > max {
        let head = vstd::slice::slice_subrange(content.as_slice(), 0, max);
        assert(content@.subrange(0, max as int) =~= content@.take(max as int));
        return Ok(string_from_utf8_lossy(head));
    }
    match string_from_utf8(content) {
        Some(s) => Ok(s),
        None => Err("File is not valid UTF-8 text".to_string()),
    }
}

/// Images larger than this get no thumbnail.
pub const MAX_THUMBNAIL_BYTES: u64 = 8388608;

/// The thumbnail of `path` is the file itself, where it is a file, an image,
/// and no larger than `MAX_THUMBNAIL_BYTES`; `size` is what reading its size
/// gave.
pub fn get_thumbnail(path: String, is_file: bool, image_mime: Option<String>, size: Result<u64, String>) -> (r: Result<Option<String>, String>)
    ensures
        if !is_file || image_mime is None {
            r == Ok::<Option<String>, String>(None)
        } else {
            match size {
                Err(e) => r == Err::<Option<String>, String>(e),
                Ok(n) => if n > MAX_THUMBNAIL_BYTES {
                    r == Ok::<Option<String>, String>(None)
                } else {
                    r == Ok::<Option<String>, String>(Some(path))
                },
            }
        },
{
    if !is_file {
        return Ok(None);
    }
    if image_mime.is_none() {
        return Ok(None);
    }
    match size {
        Err(e) => Err(e),
        Ok(n) => if n > MAX_THUMBNAIL_BYTES {
            Ok(None)
        } else {
            Ok(Some(path))
        },
    }
}

/// Where a new file or directory named `name` in `path` goes.
pub fn new_item_path(path: &str, name: &str) -> (r: String)
    ensures
        r@ == path_join(path@, name@),
{
    join(path, name)
}

/// The error for a new file that exists already.
pub fn file_exists_error(target: &str) -> (r: String)
    ensures
        r@ == "File already exists: "@ + target@,
{
    concat("File already exists: ", target)
}

/// The error for a new directory that exists already.
pub fn directory_exists_error(target: &str) -> (r: String)
    ensures
        r@ == "Directory already exists: "@ + target@,
{
    concat("Directory already exists: ", target)
}

/// Where renaming `path` to `new_name` moves it: beside it, in its parent.
pub fn rename_target(path: &str, new_name: &str) -> (r: Result<String, String>)
    ensures
        match path_parent(path@) {
            Some(p) => r matches Ok(t) && t@ == path_join(p, new_name@),
            None => r matches Err(e) && e@ == "Cannot get parent directory"@,
        },
{
    match parent(path) {
        Some(p) => Ok(join(p.as_str(), new_name)),
        None => Err("Cannot get parent directory".to_string()),
    }
}

/// The error for a rename onto an existing name.
pub fn rename_exists_error() -> (r: String)
    ensures
        r@ == "An item with that name already exists"@,
{
    "An item with that name already exists".to_string()
}

/// The home directory, which must be known.
pub fn get_home_dir(home: Option<String>) -> (r: Result<String, String>)
    ensures
        match home {
            Some(h) => r == Ok::<String, String>(h),
            None => r matches Err(e) && e@ == "Could not determine home directory"@,
        },
{
    match home {
        Some(h) => Ok(h),
        None => Err("Could not determine home directory".to_string()),
    }
}

/// The user's folders; the home directory must be known.
pub fn get_user_dirs(
    home: Option<String>,
    documents: Option<String>,
    downloads: Option<String>,
    pictures: Option<String>,
    videos: Option<String>,
    music: Option<String>,
    desktop: Option<String>,
) -> (r: Result<UserDirs, String>)
    ensures
        match home {
            Some(h) => r == Ok::<UserDirs, String>(
                UserDirs { home: h, documents, downloads, pictures, videos, music, desktop },
            ),
            None => r matches Err(e) && e@ == "Could not determine home directory"@,
        },
{
    let home = match get_home_dir(home) {
        Ok(h) => h,
        Err(e) => return Err(e),
    };
    Ok(UserDirs { home, documents, downloads, pictures, videos, music, desktop })
}

/// The entry of `path`, or the error of reading what the file system says of
/// it.
pub fn get_file_info(path: String, meta: Result<EntryMetadata, String>, head: Option<&[u8]>) -> (r: Result<FileEntry, String>)
    ensures
        match meta {
            Ok(m) => r matches Ok(e) && entry_spec(
                path@,
                m,
                match head {
                    Some(b) => Some(b@),
                    None => None,
                },
                e,
            ),
            Err(e) => r == Err::<FileEntry, String>(e),
        },
{
    match meta {
        Ok(m) => Ok(file_entry_from_path(path.as_str(), m, head)),
        Err(e) => Err(e),
    }
}

} // verus!
