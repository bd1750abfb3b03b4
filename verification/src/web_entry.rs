//! Which web page the window loads: an installed one, one bundled beside the
//! program, or the one built in the source tree.
use vstd::prelude::*;
use crate::paths::{join, parent, path_join, path_parent};

verus! {

broadcast use vstd::string::group_string_axioms;

/// The page an environment variable names, if it is set.
pub open spec fn entry_piece(e: Option<String>) -> Seq<Seq<char>> {
    match e {
        Some(x) => seq![x@],
        None => Seq::empty(),
    }
}

/// The page `rest` under the directory an environment variable names, if it
/// is set.
pub open spec fn dir_piece(d: Option<String>, rest: Seq<char>) -> Seq<Seq<char>> {
    match d {
        Some(x) => seq![path_join(x@, rest)],
        None => Seq::empty(),
    }
}

/// The pages the environment names, in the order they are tried: the page
/// itself, `index.html` in the web directory, `web/index.html` in the
/// application directory.
pub fn installed_candidates(entry: Option<String>, web_dir: Option<String>, app_dir: Option<String>) -> (r: Vec<String>)
    ensures
        r@.map_values(|s: String| s@) == entry_piece(entry) + dir_piece(web_dir, "index.html"@) + dir_piece(
            app_dir,
            "web/index.html"@,
        ),
{
    let ghost a = entry_piece(entry);
    let ghost b = dir_piece(web_dir, "index.html"@);
    let ghost c = dir_piece(app_dir, "web/index.html"@);
    let mut r: Vec<String> = Vec::new();
    match entry {
        Some(e) => r.push(e),
        None => {},
    }
    assert(r@.map_values(|s: String| s@) =~= a);
    match web_dir {
        Some(d) => r.push(join(d.as_str(), "index.html")),
        None => {},
    }
    assert(r@.map_values(|s: String| s@) =~= a + b);
    match app_dir {
        Some(d) => r.push(join(d.as_str(), "web/index.html")),
        None => {},
    }
    assert(r@.map_values(|s: String| s@) =~= a + b + c);
    r
}

/// Where bundled pages lie for the program `exe`: `share/sabine` beside the
/// directory that holds it.
pub fn resources_root(exe: &str) -> (r: Option<String>)
    ensures
        match path_parent(exe@) {
            Some(bin) => match path_parent(bin) {
                Some(prefix) => r matches Some(p) && p@ == path_join(prefix, "share/sabine"@),
                None => r is None,
            },
            None => r is None,
        },
{
    let bin = match parent(exe) {
        Some(b) => b,
        None => return None,
    };
    let prefix = match parent(bin.as_str()) {
        Some(p) => p,
        None => return None,
    };
    Some(join(prefix.as_str(), "share/sabine"))
}

/// The page a bundled application directory would hold.
pub fn bundled_candidate(dir: &str) -> (r: String)
    ensures
        r@ == path_join(dir@, "web/index.html"@),
{
    join(dir, "web/index.html")
}

/// The least of `paths` in the order of paths (`PathBuf`'s order).
pub uninterp spec fn least_path(paths: Seq<Seq<char>>) -> Seq<char>;

/// The least of `paths` in the order of paths (`Iterator::min` over
/// `PathBuf`s), `None` for no paths. The result is one of the paths, as the
/// documentation of `min` says; which one is named `least_path`, and the
/// component order is not restated.
#[verifier::external_body]
pub(crate) fn first_path(paths: &Vec<String>) -> (r: Option<String>)
    ensures
        r is None <==> paths@.len() == 0,
        r matches Some(p) ==> p@ == least_path(paths@.map_values(|s: String| s@)) && exists|i: int|
            0 <= i < paths@.len() && (#[trigger] paths@[i])@ == p@,
{
    paths.iter().map(std::path::PathBuf::from).min().map(|p| p.to_string_lossy().into_owned())
}

/// The first of the pages `checked` that is a file (each page comes with
/// whether it is one).
pub open spec fn first_file(checked: Seq<(String, bool)>) -> Option<Seq<char>>
    decreases checked.len(),
{
    if checked.len() == 0 {
        None
    } else if checked[0].1 {
        Some(checked[0].0@)
    } else {
        first_file(checked.drop_first())
    }
}

/// The pages of `checked` that are files, in their order.
pub open spec fn files_of(checked: Seq<(String, bool)>) -> Seq<Seq<char>>
    decreases checked.len(),
{
    if checked.len() == 0 {
        Seq::empty()
    } else {
        let rest = files_of(checked.drop_last());
        if checked.last().1 {
            rest.push(checked.last().0@)
        } else {
            rest
        }
    }
}

/// The installed page to load: the first of the pages the environment names
/// (`installed_candidates`, each with whether it is a file) that is a file.
pub fn installed(checked: &Vec<(String, bool)>) -> (r: Option<String>)
    ensures
        match r {
            Some(p) => first_file(checked@) == Some(p@),
            None => first_file(checked@) is None,
        },
{
    let mut i: usize = 0;
    assert(checked@.skip(0) =~= checked@);
    while i < checked.len()
        invariant
            i <= checked.len(),
            first_file(checked@.skip(i as int)) == first_file(checked@),
        decreases checked.len() - i,
    {
        assert(checked@.skip(i as int)[0] == checked@[i as int]);
        assert(checked@.skip(i as int).drop_first() =~= checked@.skip(i + 1));
        if checked[i].1 {
            return Some(checked[i].0.clone());
        }
        i = i + 1;
    }
    None
}

/// The bundled page to load, of the pages in the bundled application
/// directories (each with whether it is a file): the least of those that
/// are files, in the order of paths; none where none is.
pub fn bundled(checked: &Vec<(String, bool)>) -> (r: Option<String>)
    ensures
        r is None <==> files_of(checked@).len() == 0,
        r matches Some(p) ==> p@ == least_path(files_of(checked@)) && files_of(checked@).contains(p@),
{
    let mut files: Vec<String> = Vec::new();
    let mut i: usize = 0;
    while i < checked.len()
        invariant
            i <= checked.len(),
            files@.map_values(|s: String| s@) == files_of(checked@.take(i as int)),
        decreases checked.len() - i,
    {
        assert(checked@.take(i + 1).drop_last() =~= checked@.take(i as int));
        if checked[i].1 {
            files.push(checked[i].0.clone());
        }
        i = i + 1;
        assert(files@.map_values(|s: String| s@) =~= files_of(checked@.take(i as int)));
    }
    assert(checked@.take(i as int) =~= checked@);
    let r = first_path(&files);
    proof {
        if r is Some {
            let p = r->0;
            let k = choose|k: int| 0 <= k < files@.len() && (#[trigger] files@[k])@ == p@;
            assert(files@.map_values(|s: String| s@)[k] == p@);
        }
    }
    r
}

/// The page the window loads: the first installed page that is a file, else
/// the least bundled page that is a file, else the one built in the source
/// tree at `source_root`.
pub fn resolve(installed_pages: &Vec<(String, bool)>, bundled_pages: &Vec<(String, bool)>, source_root: &str) -> (r: String)
    ensures
        r@ == (match first_file(installed_pages@) {
            Some(p) => p,
            None => if files_of(bundled_pages@).len() > 0 {
                least_path(files_of(bundled_pages@))
            } else {
                path_join(source_root@, "build/index.html"@)
            },
        }),
{
    match installed(installed_pages) {
        Some(p) => p,
        None => match bundled(bundled_pages) {
            Some(p) => p,
            None => join(source_root, "build/index.html"),
        },
    }
}

/// What the window shows: the development server (run with its command),
/// or the page at an address.
pub enum WindowPage {
    Dev { url: String, command: String },
    Entry { url: String },
}

/// What the window shows for the program's arguments `args`: with `--dev`,
/// the development server at `http://localhost:5173`; else the page `entry`,
/// in both cases opened on the front end's root route.
pub fn window_page(args: &Vec<String>, entry: &str) -> (r: WindowPage)
    ensures
        (exists|i: int| 0 <= i < args@.len() && (#[trigger] args@[i])@ == "--dev"@) ==> (r matches WindowPage::Dev {
            url,
            command,
        } && url@ == "http://localhost:5173?fenestra=1#/"@ && command@ == "bun run dev"@),
        !(exists|i: int| 0 <= i < args@.len() && (#[trigger] args@[i])@ == "--dev"@) ==> (r matches WindowPage::Entry {
            url,
        } && url@ == entry@ + "?fenestra=1#/"@),
{
    let mut dev = false;
    let mut i: usize = 0;
    while i < args.len()
        invariant
            i <= args.len(),
            dev <==> exists|k: int| 0 <= k < i && (#[trigger] args@[k])@ == "--dev"@,
        decreases args.len() - i,
    {
        if crate::text::str_eq(args[i].as_str(), "--dev") {
            dev = true;
        }
        i = i + 1;
    }
    if dev {
        WindowPage::Dev { url: "http://localhost:5173?fenestra=1#/".to_string(), command: "bun run dev".to_string() }
    } else {
        WindowPage::Entry { url: crate::text::concat(entry, "?fenestra=1#/") }
    }
}

/// Whether a new window hands over to an already running Rover instead of
/// opening: always, except while it serves a file chooser session.
pub fn single_instance(chooser_active: bool) -> (r: bool)
    ensures
        r == !chooser_active,
{
    !chooser_active
}

} // verus!
