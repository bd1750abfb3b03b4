//! The desktop's file manager service (`org.freedesktop.FileManager1`): which
//! folders Rover opens for the items other applications ask it to show.
use vstd::prelude::*;
use crate::paths::{join, parent, path_join, path_parent};
use crate::text::str_eq;

verus! {

broadcast use vstd::string::group_string_axioms;

/// Whether `url::Url::parse` accepts `uri`.
pub uninterp spec fn url_parses(uri: Seq<char>) -> bool;

/// The scheme of the URL `uri` (`Url::scheme`).
pub uninterp spec fn url_scheme(uri: Seq<char>) -> Seq<char>;

/// The local path of the URL `uri` (`Url::to_file_path`), where it has one.
pub uninterp spec fn url_file_path(uri: Seq<char>) -> Option<Seq<char>>;

/// Parses `uri` (`url::Url::parse`) and gives its scheme (`Url::scheme`) and
/// its local path (`Url::to_file_path`). Each of the three results is named;
/// the URL grammar is not restated.
#[verifier::external_body]
fn parse_url(uri: &str) -> (r: Option<(String, Option<String>)>)
    ensures
        r is Some <==> url_parses(uri@),
        r matches Some((scheme, path)) ==> scheme@ == url_scheme(uri@) && match path {
            Some(p) => url_file_path(uri@) == Some(p@),
            None => url_file_path(uri@) is None,
        },
{
    url::Url::parse(uri).ok().map(|u| (u.scheme().to_string(), u.to_file_path().ok().map(|p| p.to_string_lossy().into_owned())))
}

/// The local path a `file:` URL names.
pub open spec fn uri_path_spec(uri: Seq<char>) -> Option<Seq<char>> {
    if url_parses(uri) && url_scheme(uri) == "file"@ {
        url_file_path(uri)
    } else {
        None
    }
}

/// The local path of the `file:` URL `uri`; nothing for another scheme or an
/// invalid URL.
pub fn uri_to_path(uri: &str) -> (r: Option<String>)
    ensures
        match r {
            Some(p) => uri_path_spec(uri@) == Some(p@),
            None => uri_path_spec(uri@) is None,
        },
{
    match parse_url(uri) {
        Some((scheme, path)) => {
            if str_eq(scheme.as_str(), "file") {
                path
            } else {
                None
            }
        },
        None => None,
    }
}

/// The folder of `path`, or `path` itself where it has none.
pub fn parent_path(path: &str) -> (r: String)
    ensures
        r@ == (match path_parent(path@) {
            Some(p) => p,
            None => path@,
        }),
{
    match parent(path) {
        Some(p) => p,
        None => path.to_string(),
    }
}

/// What a request asks to show: items, whose folder opens unless they are
/// folders, or folders themselves.
#[derive(Clone, Copy, Debug, PartialEq, Eq, Structural)]
pub enum ItemKind {
    Auto,
    Folder,
}

/// The folder Rover opens for the item at `path`: the item itself where it is
/// a folder or asked for as one, else its folder.
pub fn item_target(path: String, kind: ItemKind, is_dir: bool) -> (r: String)
    ensures
        r@ == (match kind {
            ItemKind::Folder => path@,
            ItemKind::Auto => if is_dir {
                path@
            } else {
                match path_parent(path@) {
                    Some(p) => p,
                    None => path@,
                }
            },
        }),
{
    match kind {
        ItemKind::Folder => path,
        ItemKind::Auto => {
            if is_dir {
                path
            } else {
                parent_path(path.as_str())
            }
        },
    }
}

/// Where the service's activation file goes under the data directory.
pub fn service_path(data_home: &str) -> (r: String)
    ensures
        r@ == path_join(data_home@, "dbus-1/services/org.freedesktop.FileManager1.service"@),
{
    join(data_home, "dbus-1/services/org.freedesktop.FileManager1.service")
}

} // verus!
