//! The desktop portal's file chooser backend: how a chooser request becomes
//! the environment of a Rover chooser window, how its answer goes back to
//! the portal, and the files that register Rover as the portal and as the
//! desktop's file manager.
use vstd::prelude::*;
use crate::chooser::{mode_of, ChooserMode, ChooserResponse};
use crate::paths::{absolute, join, parent, path_join, path_parent};
use crate::text::{
    chars_list_view, chars_of, concat, join as join_spec, join_strings, lines, lines_of, starts_with,
    str_eq, string_from_utf8, string_list_view, string_of, trim_start,
};
use crate::operations_queue::{decimal, decimal_string};

verus! {

broadcast use vstd::string::group_string_axioms;

/// What `Url::from_file_path` makes of the absolute path `path`: a `file://`
/// URL with each component percent-encoded.
pub uninterp spec fn file_url_of(path: Seq<char>) -> Seq<char>;

/// The `file://` URL of `path` (`url::Url::from_file_path`). On Unix it fails
/// exactly for a relative path, as the crate's source shows; the encoding of
/// the result is named `file_url_of` and not restated.
#[verifier::external_body]
fn file_url(path: &str) -> (r: Option<String>)
    ensures
        r is Some <==> absolute(path@),
        r matches Some(u) ==> u@ == file_url_of(path@),
{
    url::Url::from_file_path(path).ok().map(|u| u.to_string())
}

/// The results a chooser hands the portal: the chosen files as URLs, never
/// writable.
pub struct PortalResults {
    pub uris: Vec<String>,
    pub writable: bool,
}

/// The URLs of the absolute paths among `paths`, in order.
pub open spec fn uris_of(paths: Seq<Seq<char>>) -> Seq<Seq<char>>
    decreases paths.len(),
{
    if paths.len() == 0 {
        Seq::empty()
    } else {
        let p = paths.last();
        let earlier = uris_of(paths.drop_last());
        if absolute(p) {
            earlier.push(file_url_of(p))
        } else {
            earlier
        }
    }
}

/// The portal is handed one URL for each absolute path the chooser picked,
/// in the order picked, and nothing for a relative one; where every picked
/// path is absolute, the i-th URL is that of the i-th path.
pub proof fn lemma_portal_uris(ps: Seq<Seq<char>>)
    ensures
        uris_of(ps) == ps.filter(|p: Seq<char>| absolute(p)).map_values(|p: Seq<char>| file_url_of(p)),
        (forall|i: int| 0 <= i < ps.len() ==> absolute(#[trigger] ps[i])) ==> (uris_of(ps).len() == ps.len()
            && forall|i: int| 0 <= i < ps.len() ==> #[trigger] uris_of(ps)[i] == file_url_of(ps[i])),
    decreases ps.len(),
{
    let keep = |p: Seq<char>| absolute(p);
    let url = |p: Seq<char>| file_url_of(p);
    if ps.len() > 0 {
        lemma_portal_uris(ps.drop_last());
        let before = ps.drop_last().filter(keep);
        reveal(Seq::filter);
        assert(ps.filter(keep) == (if keep(ps.last()) { before.push(ps.last()) } else { before }));
        if keep(ps.last()) {
            assert(before.push(ps.last()).map_values(url) =~= before.map_values(url).push(file_url_of(ps.last())));
        }
        assert(uris_of(ps) =~= ps.filter(keep).map_values(url));
        if forall|i: int| 0 <= i < ps.len() ==> absolute(#[trigger] ps[i]) {
            assert(forall|i: int| 0 <= i < ps.drop_last().len() ==> #[trigger] ps.drop_last()[i] == ps[i]);
            assert(absolute(ps[ps.len() - 1]));
        }
    }
}

/// The portal's answer to a chooser's `response`: code 1 and no results where
/// it was cancelled; else code 0 with the URLs of the chosen files.
pub fn response_to_portal(response: ChooserResponse) -> (r: (u32, Option<PortalResults>))
    ensures
        !response.accepted ==> r.0 == 1 && r.1 is None,
        response.accepted ==> r.0 == 0,
        response.accepted ==> (r.1 matches Some(res) && !res.writable && string_list_view(res.uris@)
            == uris_of(string_list_view(response.paths@))),
{
    if !response.accepted {
        return (1, None);
    }
    let ghost ps = string_list_view(response.paths@);
    let mut uris: Vec<String> = Vec::new();
    let mut i: usize = 0;
    assert(ps.take(0) =~= Seq::<Seq<char>>::empty());
    while i < response.paths.len()
        invariant
            i <= response.paths.len(),
            ps == string_list_view(response.paths@),
            string_list_view(uris@) == uris_of(ps.take(i as int)),
        decreases response.paths.len() - i,
    {
        let ghost before = string_list_view(uris@);
        assert(ps.take(i + 1).drop_last() =~= ps.take(i as int));
        assert(ps.take(i + 1).last() == ps[i as int]);
        match file_url(response.paths[i].as_str()) {
            Some(u) => {
                uris.push(u);
                assert(string_list_view(uris@) =~= before.push(file_url_of(ps[i as int])));
            },
            None => {},
        }
        i = i + 1;
    }
    assert(ps.take(i as int) =~= ps);
    (0, Some(PortalResults { uris, writable: false }))
}

/// `b` without its trailing NUL bytes.
pub open spec fn without_nuls(b: Seq<u8>) -> Seq<u8>
    decreases b.len(),
{
    if b.len() > 0 && b.last() == 0 {
        without_nuls(b.drop_last())
    } else {
        b
    }
}

/// The text of a byte-string option, which D-Bus ends with NUL bytes: `None`
/// where it is not UTF-8 or is empty.
pub open spec fn bytes_text(b: Seq<u8>) -> Option<Seq<char>> {
    let t = without_nuls(b);
    if vstd::utf8::valid_utf8(t) && vstd::utf8::decode_utf8(t).len() > 0 {
        Some(vstd::utf8::decode_utf8(t))
    } else {
        None
    }
}

/// The text of a byte-string option.
pub fn bytes_to_string(bytes: Vec<u8>) -> (r: Option<String>)
    ensures
        match r {
            Some(s) => bytes_text(bytes@) == Some(s@),
            None => bytes_text(bytes@) is None,
        },
{
    let ghost orig = bytes@;
    let mut bytes = bytes;
    while bytes.len() > 0 && bytes[bytes.len() - 1] == 0
        invariant
            without_nuls(bytes@) == without_nuls(orig),
        decreases bytes.len(),
    {
        bytes.pop();
    }
    match string_from_utf8(bytes) {
        Some(s) => {
            if chars_of(s.as_str()).len() > 0 {
                Some(s)
            } else {
                None
            }
        },
        None => None,
    }
}

/// `c` is an ASCII letter or digit.
pub open spec fn ascii_alnum(c: char) -> bool {
    ('0' <= c && c <= '9') || ('a' <= c && c <= 'z') || ('A' <= c && c <= 'Z')
}

/// `handle` with every character that is not an ASCII letter or digit made `_`.
pub open spec fn safe_handle(handle: Seq<char>) -> Seq<char> {
    handle.map_values(|c: char| if ascii_alnum(c) { c } else { '_' })
}

/// The file a chooser window writes its answer to, in the temporary
/// directory `temp_dir`, named after the process, the request number and the
/// request's handle.
pub fn response_path(temp_dir: &str, process_id: u32, request: u64, handle: &str) -> (r: String)
    ensures
        r@ == path_join(
            temp_dir@,
            "rover-chooser-"@ + decimal(process_id as nat) + "-"@ + decimal(request as nat) + "-"@ + safe_handle(
                handle@,
            ) + ".json"@,
        ),
{
    let cs = chars_of(handle);
    let mut safe: Vec<char> = Vec::new();
    let mut i: usize = 0;
    while i < cs.len()
        invariant
            i <= cs.len(),
            cs@ == handle@,
            safe@ == safe_handle(cs@.take(i as int)),
        decreases cs.len() - i,
    {
        let c = cs[i];
        let alnum = ('0' <= c && c <= '9') || ('a' <= c && c <= 'z') || ('A' <= c && c <= 'Z');
        safe.push(if alnum { c } else { '_' });
        i = i + 1;
        assert(safe@ =~= safe_handle(cs@.take(i as int)));
    }
    assert(cs@.take(i as int) =~= cs@);
    let pid = decimal_string(process_id as u128);
    let req = decimal_string(request as u128);
    let a = concat("rover-chooser-", pid.as_str());
    let b = concat(a.as_str(), "-");
    let c = concat(b.as_str(), req.as_str());
    let d = concat(c.as_str(), "-");
    let e = concat(d.as_str(), string_of(&safe).as_str());
    let f = concat(e.as_str(), ".json");
    join(temp_dir, f.as_str())
}

/// The title of a chooser that was given none.
pub open spec fn default_title_spec(mode: Seq<char>) -> Seq<char> {
    if mode == "save"@ {
        "Save file"@
    } else if mode == "save_files"@ {
        "Select folder"@
    } else {
        "Select file"@
    }
}

/// The title of a chooser in `mode` that was given none.
pub fn default_title(mode: &str) -> (r: &'static str)
    ensures
        r@ == default_title_spec(mode@),
{
    if str_eq(mode, "save") {
        "Save file"
    } else if str_eq(mode, "save_files") {
        "Select folder"
    } else {
        "Select file"
    }
}

/// The label of the accept button of a chooser that was given none.
pub open spec fn default_accept_spec(mode: Seq<char>) -> Seq<char> {
    if mode == "save"@ {
        "Save"@
    } else if mode == "save_files"@ {
        "Select"@
    } else {
        "Open"@
    }
}

/// The label of the accept button of a chooser in `mode` that was given none.
pub fn default_accept(mode: &str) -> (r: &'static str)
    ensures
        r@ == default_accept_spec(mode@),
{
    if str_eq(mode, "save") {
        "Save"
    } else if str_eq(mode, "save_files") {
        "Select"
    } else {
        "Open"
    }
}

/// A chooser given no title or button label is labelled after the mode the
/// chooser reads from the same mode text: a save chooser "Save file" with a
/// "Save" button, a chooser saving several files "Select folder" with a
/// "Select" button, and an open chooser "Select file" with an "Open" button.
pub proof fn lemma_default_labels(m: Seq<char>)
    ensures
        mode_of(m) == ChooserMode::Save ==> default_title_spec(m) == "Save file"@ && default_accept_spec(m)
            == "Save"@,
        mode_of(m) == ChooserMode::SaveFiles ==> default_title_spec(m) == "Select folder"@
            && default_accept_spec(m) == "Select"@,
        mode_of(m) == ChooserMode::Open ==> default_title_spec(m) == "Select file"@ && default_accept_spec(m)
            == "Open"@,
{
    crate::chooser::lemma_mode_text(m);
}

/// A flag as the chooser's environment writes it: `1` or `0`.
pub fn bool_env(value: bool) -> (r: &'static str)
    ensures
        r@ == (if value { "1"@ } else { "0"@ }),
{
    if value {
        "1"
    } else {
        "0"
    }
}

/// The options of a chooser request that Rover reads, as plain values.
pub struct ChooserOptions {
    pub accept_label: Option<String>,
    pub directory: Option<bool>,
    pub multiple: Option<bool>,
    pub current_folder: Option<Vec<u8>>,
    pub current_file: Option<Vec<u8>>,
    pub current_name: Option<String>,
    pub files: Option<Vec<Vec<u8>>>,
}

/// The settings a chooser window starts with.
pub struct ChooserLaunch {
    pub title: String,
    pub accept_label: String,
    pub directory: bool,
    pub multiple: bool,
    pub current_folder: String,
    pub current_name: String,
    pub files: Vec<String>,
}

/// What `serde_json::to_string` writes for the list of strings `list`, or the
/// text of its error.
pub uninterp spec fn json_strings_text(list: Seq<Seq<char>>) -> Result<Seq<char>, Seq<char>>;

/// Writes the list of strings `list` as JSON (`serde_json::to_string`). Its
/// result, and the text of its error, are named `json_strings_text`; the JSON
/// syntax is not restated.
#[verifier::external_body]
fn strings_to_json(list: &Vec<String>) -> (r: Result<String, String>)
    ensures
        match json_strings_text(string_list_view(list@)) {
            Ok(t) => r matches Ok(x) && x@ == t,
            Err(e) => r matches Err(x) && x@ == e,
        },
{
    serde_json::to_string(list).map_err(|error| error.to_string())
}

impl ChooserLaunch {
    /// The files the chooser starts with, written as the JSON list that the
    /// chooser window reads back.
    pub fn files_text(&self) -> (r: Result<String, String>)
        ensures
            match json_strings_text(string_list_view(self.files@)) {
                Ok(t) => r matches Ok(x) && x@ == t,
                Err(e) => r matches Err(x) && x@ == e,
            },
    {
        strings_to_json(&self.files)
    }
}

/// The texts of the byte strings `files` that are texts.
pub open spec fn file_texts(files: Seq<Seq<u8>>) -> Seq<Seq<char>>
    decreases files.len(),
{
    if files.len() == 0 {
        Seq::empty()
    } else {
        let earlier = file_texts(files.drop_last());
        match bytes_text(files.last()) {
            Some(t) => earlier.push(t),
            None => earlier,
        }
    }
}

/// The byte strings' contents.
pub open spec fn bytes_views(v: Seq<Vec<u8>>) -> Seq<Seq<u8>> {
    v.map_values(|b: Vec<u8>| b@)
}

/// The folder a chooser opens in: the one asked for, else the folder of the
/// file asked for.
pub open spec fn current_folder_spec(folder: Option<Seq<u8>>, file: Option<Seq<u8>>) -> Option<Seq<char>> {
    let f = match folder {
        Some(b) => bytes_text(b),
        None => None,
    };
    match f {
        Some(t) => Some(t),
        None => match file {
            Some(b) => match bytes_text(b) {
                Some(t) => path_parent(t),
                None => None,
            },
            None => None,
        },
    }
}

/// The text of an optional string, empty where there is none.
pub open spec fn or_empty(o: Option<String>) -> Seq<char> {
    match o {
        Some(s) => s@,
        None => Seq::empty(),
    }
}

/// The settings of a chooser window for a request in `mode` titled `title`:
/// the default title and label where none is given, a folder chooser where
/// asked or where saving several files, one file unless asked for several.
pub fn chooser_launch(mode: &str, title: String, options: ChooserOptions) -> (r: ChooserLaunch)
    ensures
        r.title@ == (if title@.len() == 0 { default_title_spec(mode@) } else { title@ }),
        r.accept_label@ == (match options.accept_label {
            Some(l) => l@,
            None => default_accept_spec(mode@),
        }),
        r.directory == (match options.directory {
            Some(d) => d,
            None => mode@ == "save_files"@,
        }),
        r.multiple == (match options.multiple {
            Some(m) => m,
            None => false,
        }),
        r.current_folder@ == (match current_folder_spec(
            match options.current_folder {
                Some(b) => Some(b@),
                None => None,
            },
            match options.current_file {
                Some(b) => Some(b@),
                None => None,
            },
        ) {
            Some(f) => f,
            None => Seq::empty(),
        }),
        r.current_name@ == or_empty(options.current_name),
        string_list_view(r.files@) == (match options.files {
            Some(fs) => file_texts(bytes_views(fs@)),
            None => Seq::empty(),
        }),
{
    let title = if chars_of(title.as_str()).len() == 0 {
        default_title(mode).to_string()
    } else {
        title
    };
    let accept_label = match options.accept_label {
        Some(l) => l,
        None => default_accept(mode).to_string(),
    };
    let directory = match options.directory {
        Some(d) => d,
        None => str_eq(mode, "save_files"),
    };
    let multiple = match options.multiple {
        Some(m) => m,
        None => false,
    };
    let folder = match options.current_folder {
        Some(b) => bytes_to_string(b),
        None => None,
    };
    let current_folder = match folder {
        Some(f) => f,
        None => {
            let from_file = match options.current_file {
                Some(b) => match bytes_to_string(b) {
                    Some(t) => parent(t.as_str()),
                    None => None,
                },
                None => None,
            };
            match from_file {
                Some(p) => p,
                None => String::new(),
            }
        },
    };
    let current_name = match options.current_name {
        Some(n) => n,
        None => String::new(),
    };
    let files = match options.files {
        Some(fs) => {
            let ghost bv = bytes_views(fs@);
            let mut rest = fs;
            let n0 = rest.len();
            let mut out: Vec<String> = Vec::new();
            let mut i: usize = 0;
            assert(bv.take(0) =~= Seq::<Seq<u8>>::empty());
            while rest.len() > 0
                invariant
                    i + rest.len() == bv.len(),
                    bv.len() == n0,
                    bytes_views(rest@) == bv.skip(i as int),
                    string_list_view(out@) == file_texts(bv.take(i as int)),
                decreases rest.len(),
            {
                let ghost old_rest = rest@;
                let b = rest.remove(0);
                assert(rest@ =~= old_rest.drop_first());
                assert(bytes_views(rest@) =~= bytes_views(old_rest).drop_first());
                assert(bv[i as int] == b@) by {
                    assert(bv.skip(i as int)[0] == bv[i as int]);
                    assert(bytes_views(old_rest)[0] == old_rest[0]@);
                }
                assert(bv.take(i + 1).drop_last() =~= bv.take(i as int));
                assert(bv.take(i + 1).last() == bv[i as int]);
                let ghost before = string_list_view(out@);
                match bytes_to_string(b) {
                    Some(t) => {
                        out.push(t);
                        assert(string_list_view(out@) =~= before.push(bytes_text(bv[i as int])->0));
                    },
                    None => {},
                }
                assert(bytes_views(rest@) =~= bv.skip(i + 1));
                i = i + 1;
            }
            assert(bv.take(i as int) =~= bv);
            out
        },
        None => {
            let v: Vec<String> = Vec::new();
            assert(string_list_view(v@) =~= Seq::<Seq<char>>::empty());
            v
        },
    };
    ChooserLaunch { title, accept_label, directory, multiple, current_folder, current_name, files }
}

/// What a chooser's run answers: its response where it accepted; else an
/// error where the window failed; else its response, which cancels. A
/// missing response counts as a cancel.
pub fn chooser_outcome(response: Option<ChooserResponse>, success: bool, status: &str) -> (r: Result<ChooserResponse, String>)
    ensures
        match response {
            Some(resp) => if resp.accepted {
                r == Ok::<ChooserResponse, String>(resp)
            } else if !success {
                r matches Err(e) && e@ == "Rover chooser exited with status "@ + status@
            } else {
                r == Ok::<ChooserResponse, String>(resp)
            },
            None => if !success {
                r matches Err(e) && e@ == "Rover chooser exited with status "@ + status@
            } else {
                r matches Ok(resp) && !resp.accepted && resp.paths@.len() == 0
            },
        },
{
    let resp = match response {
        Some(r) => r,
        None => ChooserResponse { accepted: false, paths: Vec::new() },
    };
    if resp.accepted {
        return Ok(resp);
    }
    if !success {
        return Err(concat("Rover chooser exited with status ", status));
    }
    Ok(resp)
}

/// The piece of a quoted shell word that stands for `c`.
pub open spec fn quoted_piece(c: char) -> Seq<char> {
    if c == '\'' {
        seq!['\'', '\\', '\'', '\'']
    } else {
        seq![c]
    }
}

/// The inside of a single-quoted shell word for `s`.
pub open spec fn quoted_inside(s: Seq<char>) -> Seq<char>
    decreases s.len(),
{
    if s.len() == 0 {
        Seq::empty()
    } else {
        quoted_inside(s.drop_last()) + quoted_piece(s.last())
    }
}

/// `value` as one single-quoted shell word: each quote closed, escaped and
/// reopened.
pub fn shell_quote(value: &str) -> (r: String)
    ensures
        r@ == seq!['\''] + quoted_inside(value@) + seq!['\''],
{
    let cs = chars_of(value);
    let mut out: Vec<char> = Vec::new();
    out.push('\'');
    let mut i: usize = 0;
    assert(cs@.take(0) =~= Seq::<char>::empty());
    while i < cs.len()
        invariant
            i <= cs.len(),
            cs@ == value@,
            out@ == seq!['\''] + quoted_inside(cs@.take(i as int)),
        decreases cs.len() - i,
    {
        let c = cs[i];
        if c == '\'' {
            out.push('\'');
            out.push('\\');
            out.push('\'');
            out.push('\'');
        } else {
            out.push(c);
        }
        assert(cs@.take(i + 1).drop_last() =~= cs@.take(i as int));
        assert(cs@.take(i + 1).last() == c);
        i = i + 1;
        assert(out@ =~= seq!['\''] + quoted_inside(cs@.take(i as int)));
    }
    out.push('\'');
    assert(cs@.take(i as int) =~= cs@);
    string_of(&out)
}

/// The D-Bus activation file that starts `exe` with `flag` as the service
/// `bus_name`.
pub fn service_file(bus_name: &str, exe: &str, flag: &str) -> (r: String)
    ensures
        r@ == "[D-BUS Service]\nName="@ + bus_name@ + "\nExec="@ + seq!['\''] + quoted_inside(exe@) + seq!['\'']
            + " "@ + flag@ + "\n"@,
{
    let a = concat("[D-BUS Service]\nName=", bus_name);
    let b = concat(a.as_str(), "\nExec=");
    let q = shell_quote(exe);
    let c = concat(b.as_str(), q.as_str());
    let d = concat(c.as_str(), " ");
    let e = concat(d.as_str(), flag);
    concat(e.as_str(), "\n")
}

/// The portal's activation file, which starts Rover as the backend.
pub fn portal_service_file(exe: &str) -> (r: String)
    ensures
        r@ == "[D-BUS Service]\nName="@ + "org.freedesktop.impl.portal.desktop.rover"@ + "\nExec="@ + seq!['\'']
            + quoted_inside(exe@) + seq!['\''] + " "@ + "--portal-backend"@ + "\n"@,
{
    service_file("org.freedesktop.impl.portal.desktop.rover", exe, "--portal-backend")
}

/// The file manager service's activation file.
pub fn file_manager_service_file(exe: &str) -> (r: String)
    ensures
        r@ == "[D-BUS Service]\nName="@ + "org.freedesktop.FileManager1"@ + "\nExec="@ + seq!['\''] + quoted_inside(
            exe@,
        ) + seq!['\''] + " "@ + "--file-manager-bus"@ + "\n"@,
{
    service_file("org.freedesktop.FileManager1", exe, "--file-manager-bus")
}

/// The portal descriptor that names Rover's file chooser.
pub fn portal_file() -> (r: &'static str)
    ensures
        r@ == "[portal]\nDBusName=org.freedesktop.impl.portal.desktop.rover\nInterfaces=org.freedesktop.impl.portal.FileChooser;\nUseIn=*;\n"@,
{
    "[portal]\nDBusName=org.freedesktop.impl.portal.desktop.rover\nInterfaces=org.freedesktop.impl.portal.FileChooser;\nUseIn=*;\n"
}

/// The key of the file chooser's line in `portals.conf`.
pub open spec fn chooser_key() -> Seq<char> {
    "org.freedesktop.impl.portal.FileChooser="@
}

/// `t` occurs in `s` at `i`, and where `line_start` holds, at the start of
/// a line.
pub open spec fn occurs_at(s: Seq<char>, t: Seq<char>, i: int, line_start: bool) -> bool {
    &&& 0 <= i && i + t.len() <= s.len()
    &&& s.subrange(i, i + t.len()) == t
    &&& (!line_start || i == 0 || s[i - 1] == '\n')
}

/// The first such place.
pub open spec fn first_occurs_at(s: Seq<char>, t: Seq<char>, i: int, line_start: bool) -> bool {
    &&& occurs_at(s, t, i, line_start)
    &&& forall|k: int| 0 <= k < i ==> !#[trigger] occurs_at(s, t, k, line_start)
}

/// `s` with `rep` in place of `t` at its first occurrence (at a line start
/// where `line_start` holds).
pub open spec fn replaced_at_first(s: Seq<char>, t: Seq<char>, rep: Seq<char>, line_start: bool) -> Seq<char> {
    let i = choose|i: int| first_occurs_at(s, t, i, line_start);
    s.take(i) + rep + s.skip(i + t.len())
}

/// A line of `portals.conf` that sets the file chooser: one that, past its
/// leading white space, starts with the chooser key (a key inside a comment
/// does not count).
pub open spec fn is_chooser_line(l: Seq<char>) -> bool {
    starts_with(trim_start(l), chooser_key())
}

/// Some line of `current` sets the file chooser.
pub open spec fn has_chooser_line(current: Seq<char>) -> bool {
    exists|i: int| 0 <= i < lines(current).len() && is_chooser_line(#[trigger] lines(current)[i])
}

/// `portals.conf` once Rover is the preferred file chooser: the lines that
/// set the chooser are rewritten where there are any, else the line goes
/// under the first line that starts the `[preferred]` section; where no line
/// starts with it, after the first `[preferred]` anywhere; where there is
/// none, the file becomes that section with the line.
pub open spec fn portal_config_spec(current: Seq<char>) -> Seq<char> {
    let line = chooser_key() + "rover;*\n"@;
    if has_chooser_line(current) {
        join_spec(
            lines(current).map_values(
                |l: Seq<char>| if is_chooser_line(l) { chooser_key() + "rover;*"@ } else { l },
            ),
            "\n"@,
        ) + "\n"@
    } else if exists|i: int| occurs_at(current, "[preferred]"@, i, true) {
        replaced_at_first(current, "[preferred]"@, "[preferred]\n"@ + line, true)
    } else if exists|i: int| occurs_at(current, "[preferred]"@, i, false) {
        replaced_at_first(current, "[preferred]"@, "[preferred]\n"@ + line, false)
    } else {
        "[preferred]\n"@ + line
    }
}

fn find_occurrence(s: &Vec<char>, t: &Vec<char>, line_start: bool) -> (r: Option<usize>)
    requires
        t.len() > 0,
    ensures
        match r {
            Some(i) => first_occurs_at(s@, t@, i as int, line_start),
            None => forall|k: int| !#[trigger] occurs_at(s@, t@, k, line_start),
        },
{
    let mut i: usize = 0;
    while i <= s.len() && s.len() - i >= t.len()
        invariant
            t.len() > 0,
            i <= s.len(),
            forall|k: int| 0 <= k < i ==> !#[trigger] occurs_at(s@, t@, k, line_start),
        decreases s.len() - i,
    {
        if !line_start || i == 0 || s[i - 1] == '\n' {
            let piece = crate::text::slice_chars(s, i, i + t.len());
            if crate::text::chars_eq(&piece, t) {
                return Some(i);
            }
        }
        i = i + 1;
    }
    assert forall|k: int| !#[trigger] occurs_at(s@, t@, k, line_start) by {
        if 0 <= k && k + t.len() <= s.len() {
            assert(k < i);
        }
    }
    None
}

/// `s` with `rep` in place of `t` at `i`, its first occurrence.
fn replace_at(s: &Vec<char>, t: &Vec<char>, rep: &str, i: usize, line_start: bool) -> (r: String)
    requires
        t.len() > 0,
        first_occurs_at(s@, t@, i as int, line_start),
    ensures
        r@ == replaced_at_first(s@, t@, rep@, line_start),
{
    assert(i + t@.len() <= s@.len());
    assert(i + t.len() <= s.len());
    let before = crate::text::slice_chars(s, 0, i);
    let after = crate::text::slice_chars(s, i + t.len(), s.len());
    assert(before@ =~= s@.take(i as int));
    assert(after@ =~= s@.skip(i + t@.len()));
    proof {
        let k = choose|k: int| first_occurs_at(s@, t@, k, line_start);
        if k < i {
            assert(!occurs_at(s@, t@, k, line_start));
        } else if k > i {
            assert(!occurs_at(s@, t@, i as int, line_start));
        }
    }
    let a = concat(string_of(&before).as_str(), rep);
    concat(a.as_str(), string_of(&after).as_str())
}

/// `portals.conf` with Rover made the preferred file chooser, from its
/// current content (empty where there is none).
pub fn portal_config(current: &str) -> (r: String)
    ensures
        r@ == portal_config_spec(current@),
{
    let cs = chars_of(current);
    let line_text = concat("org.freedesktop.impl.portal.FileChooser=", "rover;*\n");
    let line = line_text.as_str();
    let ls = lines_of(&cs);
    let ghost l = chars_list_view(ls@);
    let ghost f = |x: Seq<char>| if is_chooser_line(x) { chooser_key() + "rover;*"@ } else { x };
    let mut out: Vec<String> = Vec::new();
    let mut found = false;
    let mut i: usize = 0;
    while i < ls.len()
        invariant
            i <= ls.len(),
            l == chars_list_view(ls@),
            l == lines(cs@),
            f == (|x: Seq<char>| if is_chooser_line(x) { chooser_key() + "rover;*"@ } else { x }),
            string_list_view(out@) == l.take(i as int).map_values(f),
            found <==> exists|k: int| 0 <= k < i && is_chooser_line(#[trigger] l[k]),
        decreases ls.len() - i,
    {
        let text = string_of(&ls[i]);
        let t = crate::text::trim_start_str(text.as_str());
        let ghost tv = text@;
        assert(tv == l[i as int]);
        let hit = crate::text::str_starts_with(t.as_str(), "org.freedesktop.impl.portal.FileChooser=");
        assert(hit == is_chooser_line(l[i as int]));
        let piece = if hit {
            found = true;
            concat("org.freedesktop.impl.portal.FileChooser=", "rover;*")
        } else {
            text
        };
        let ghost before = string_list_view(out@);
        out.push(piece);
        assert(string_list_view(out@) =~= before.push(f(l[i as int])));
        assert(l.take(i + 1).map_values(f) =~= l.take(i as int).map_values(f).push(f(l[i as int])));
        i = i + 1;
    }
    assert(found == has_chooser_line(current@));
    if found {
        assert(l.take(i as int) =~= l);
        let joined = join_strings(&out, "\n");
        return concat(joined.as_str(), "\n");
    }
    let pref = chars_of("[preferred]");
    let rep = concat("[preferred]\n", line);
    proof {
        reveal_strlit("[preferred]");
    }
    match find_occurrence(&cs, &pref, true) {
        Some(i) => replace_at(&cs, &pref, rep.as_str(), i, true),
        None => match find_occurrence(&cs, &pref, false) {
            Some(i) => replace_at(&cs, &pref, rep.as_str(), i, false),
            None => rep,
        },
    }
}

/// Where a per-user base directory lies: `$XDG_…` where set, else `rest`
/// under the home directory, else the working directory.
pub fn xdg_home(env_value: Option<String>, home: Option<String>, rest: &str) -> (r: String)
    ensures
        r@ == (match env_value {
            Some(v) => v@,
            None => match home {
                Some(h) => path_join(h@, rest@),
                None => "."@,
            },
        }),
{
    match env_value {
        Some(v) => v,
        None => match home {
            Some(h) => join(h.as_str(), rest),
            None => ".".to_string(),
        },
    }
}

/// Where the portal's files go: its activation file and descriptor under the
/// data directory, and the portal preferences under the configuration
/// directory.
pub fn portal_install_paths(data_home: &str, config_home: &str) -> (r: (String, String, String))
    ensures
        r.0@ == path_join(data_home@, "dbus-1/services/org.freedesktop.impl.portal.desktop.rover.service"@),
        r.1@ == path_join(data_home@, "xdg-desktop-portal/portals/rover.portal"@),
        r.2@ == path_join(config_home@, "xdg-desktop-portal/portals.conf"@),
{
    (
        join(data_home, "dbus-1/services/org.freedesktop.impl.portal.desktop.rover.service"),
        join(data_home, "xdg-desktop-portal/portals/rover.portal"),
        join(config_home, "xdg-desktop-portal/portals.conf"),
    )
}

} // verus!
