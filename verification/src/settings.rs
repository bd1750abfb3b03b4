//! User settings: view preferences, favourites, pinned folders and recent
//! paths. Every path that settings hold is kept normalised.
use vstd::prelude::*;
use vstd::pervasive::VecAdditionalExecFns;
use crate::path_codec::{normalize_path, normalized};
use crate::text::str_eq;

verus! {

broadcast use vstd::string::group_string_axioms;

/// A folder pinned to the sidebar.
pub struct PinnedFolder {
    pub name: String,
    pub path: String,
    pub is_dir: bool,
    pub icon: Option<String>,
}

/// A file or folder marked as favourite.
pub struct FavoriteItem {
    pub name: String,
    pub path: String,
    pub is_dir: bool,
}

/// All user settings. `folder_view_modes` maps a folder to the view chosen for
/// it, one pair per folder.
pub struct Settings {
    pub view_mode: String,
    pub folder_view_modes: Vec<(String, String)>,
    pub sort_by: String,
    pub sort_asc: bool,
    pub show_hidden: bool,
    pub preview_panel: bool,
    pub confirm_delete: bool,
    pub confirm_trash: bool,
    pub single_click_open: bool,
    pub sidebar_width: u32,
    pub icon_size: u32,
    pub favorites: Vec<FavoriteItem>,
    pub pinned_folders: Vec<PinnedFolder>,
    pub sidebar_bookmarks_initialized: bool,
    pub recent_paths: Vec<String>,
}

/// No folder occurs twice among the pairs `s`.
pub open spec fn keys_unique(s: Seq<(String, String)>) -> bool {
    forall|a: int, b: int| 0 <= a < b < s.len() ==> (#[trigger] s[a]).0@ != (#[trigger] s[b]).0@
}

/// The map that the pairs `s` describe; a later pair for a folder wins.
pub open spec fn modes_of(s: Seq<(String, String)>) -> Map<Seq<char>, Seq<char>>
    decreases s.len(),
{
    if s.len() == 0 {
        Map::empty()
    } else {
        modes_of(s.drop_last()).insert(s.last().0@, s.last().1@)
    }
}

/// The map that the pairs `s` describe once every folder is normalised; where
/// two folders normalise to the same path, the later pair wins.
pub open spec fn normalized_modes(s: Seq<(String, String)>) -> Map<Seq<char>, Seq<char>>
    decreases s.len(),
{
    if s.len() == 0 {
        Map::empty()
    } else {
        normalized_modes(s.drop_last()).insert(normalized(s.last().0@), s.last().1@)
    }
}

/// `b` is the favourite `a` with its path normalised.
pub open spec fn favorite_normalized(a: FavoriteItem, b: FavoriteItem) -> bool {
    &&& b.name == a.name
    &&& b.is_dir == a.is_dir
    &&& b.path@ == normalized(a.path@)
}

/// `b` is the pinned folder `a` with its path normalised.
pub open spec fn pinned_normalized(a: PinnedFolder, b: PinnedFolder) -> bool {
    &&& b.name == a.name
    &&& b.is_dir == a.is_dir
    &&& b.icon == a.icon
    &&& b.path@ == normalized(a.path@)
}

/// The settings `b` are `a` with every path normalised.
pub open spec fn settings_normalized(a: Settings, b: Settings) -> bool {
    &&& b.view_mode == a.view_mode
    &&& b.sort_by == a.sort_by
    &&& b.sort_asc == a.sort_asc
    &&& b.show_hidden == a.show_hidden
    &&& b.preview_panel == a.preview_panel
    &&& b.confirm_delete == a.confirm_delete
    &&& b.confirm_trash == a.confirm_trash
    &&& b.single_click_open == a.single_click_open
    &&& b.sidebar_width == a.sidebar_width
    &&& b.icon_size == a.icon_size
    &&& b.sidebar_bookmarks_initialized == a.sidebar_bookmarks_initialized
    &&& keys_unique(b.folder_view_modes@)
    &&& modes_of(b.folder_view_modes@) == normalized_modes(a.folder_view_modes@)
    &&& b.favorites@.len() == a.favorites@.len()
    &&& forall|i: int|
        0 <= i < a.favorites@.len() ==> favorite_normalized(
            a.favorites@[i],
            #[trigger] b.favorites@[i],
        )
    &&& b.pinned_folders@.len() == a.pinned_folders@.len()
    &&& forall|i: int|
        0 <= i < a.pinned_folders@.len() ==> pinned_normalized(
            a.pinned_folders@[i],
            #[trigger] b.pinned_folders@[i],
        )
    &&& b.recent_paths@.len() == a.recent_paths@.len()
    &&& forall|i: int|
        0 <= i < a.recent_paths@.len() ==> (#[trigger] b.recent_paths@[i])@ == normalized(
            a.recent_paths@[i]@,
        )
}

proof fn lemma_modes_of_unique(s: Seq<(String, String)>)
    requires
        keys_unique(s),
    ensures
        forall|j: int| 0 <= j < s.len() ==> #[trigger] modes_of(s).contains_key(s[j].0@),
        forall|j: int| 0 <= j < s.len() ==> modes_of(s)[#[trigger] s[j].0@] == s[j].1@,
        forall|k: Seq<char>|
            #[trigger] modes_of(s).contains_key(k) ==> exists|j: int| 0 <= j < s.len() && s[j].0@ == k,
    decreases s.len(),
{
    if s.len() > 0 {
        let t = s.drop_last();
        assert(keys_unique(t));
        lemma_modes_of_unique(t);
        assert forall|j: int| 0 <= j < s.len() implies modes_of(s)[#[trigger] s[j].0@] == s[j].1@ by {
            if j < s.len() - 1 {
                assert(t[j] == s[j]);
                assert(s[j].0@ != s[s.len() - 1].0@);
            }
        }
        assert forall|k: Seq<char>| #[trigger] modes_of(s).contains_key(k) implies exists|j: int|
            0 <= j < s.len() && s[j].0@ == k by {
            if k != s.last().0@ {
                assert(modes_of(t).contains_key(k));
                let j = choose|j: int| 0 <= j < t.len() && t[j].0@ == k;
                assert(s[j] == t[j]);
            } else {
                assert(s[s.len() - 1].0@ == k);
            }
        }
        assert forall|j: int| 0 <= j < s.len() implies #[trigger] modes_of(s).contains_key(s[j].0@) by {
            if j < s.len() - 1 {
                assert(t[j] == s[j]);
            }
        }
    }
}

proof fn lemma_modes_update(s: Seq<(String, String)>, j: int, p: (String, String))
    requires
        keys_unique(s),
        0 <= j < s.len(),
        p.0@ == s[j].0@,
    ensures
        keys_unique(s.update(j, p)),
        modes_of(s.update(j, p)) == modes_of(s).insert(p.0@, p.1@),
{
    let u = s.update(j, p);
    assert(keys_unique(u)) by {
        assert forall|a: int, b: int| 0 <= a < b < u.len() implies (#[trigger] u[a]).0@ != (
        #[trigger] u[b]).0@ by {
            assert(s[a].0@ != s[b].0@);
        }
    }
    lemma_modes_of_unique(s);
    lemma_modes_of_unique(u);
    assert forall|k: Seq<char>| #[trigger] modes_of(u).contains_key(k) == modes_of(s).insert(
        p.0@,
        p.1@,
    ).contains_key(k) by {
        if modes_of(u).contains_key(k) {
            let i = choose|i: int| 0 <= i < u.len() && u[i].0@ == k;
            if i != j {
                assert(u[i] == s[i]);
            }
        }
        if modes_of(s).contains_key(k) {
            let i = choose|i: int| 0 <= i < s.len() && s[i].0@ == k;
            if i != j {
                assert(u[i] == s[i]);
            } else {
                assert(u[j].0@ == k);
            }
        }
        if k == p.0@ {
            assert(u[j].0@ == k);
        }
    }
    assert forall|k: Seq<char>| #[trigger] modes_of(u).contains_key(k) implies modes_of(u)[k]
        == modes_of(s).insert(p.0@, p.1@)[k] by {
        let i = choose|i: int| 0 <= i < u.len() && u[i].0@ == k;
        if i != j {
            assert(u[i] == s[i]);
            assert(s[i].0@ != s[j].0@);
        }
    }
    assert(modes_of(u) =~= modes_of(s).insert(p.0@, p.1@));
}

proof fn lemma_modes_push(s: Seq<(String, String)>, p: (String, String))
    requires
        keys_unique(s),
        forall|j: int| 0 <= j < s.len() ==> (#[trigger] s[j]).0@ != p.0@,
    ensures
        keys_unique(s.push(p)),
        modes_of(s.push(p)) == modes_of(s).insert(p.0@, p.1@),
{
    assert(s.push(p).drop_last() =~= s);
    assert(keys_unique(s.push(p))) by {
        assert forall|a: int, b: int| 0 <= a < b < s.push(p).len() implies (
        #[trigger] s.push(p)[a]).0@ != (#[trigger] s.push(p)[b]).0@ by {
            if b == s.len() {
                assert(s.push(p)[a] == s[a]);
            } else {
                assert(s[a].0@ != s[b].0@);
            }
        }
    }
}

/// The folder/view pairs `modes` with every folder normalised; where two folders
/// normalise to the same path, the later pair wins.
fn normalize_view_modes(modes: &Vec<(String, String)>) -> (r: Vec<(String, String)>)
    ensures
        keys_unique(r@),
        modes_of(r@) == normalized_modes(modes@),
{
    let mut out: Vec<(String, String)> = Vec::new();
    let mut i: usize = 0;
    while i < modes.len()
        invariant
            i <= modes.len(),
            keys_unique(out@),
            modes_of(out@) == normalized_modes(modes@.take(i as int)),
        decreases modes.len() - i,
    {
        let key = normalize_path(modes[i].0.clone());
        let value = modes[i].1.clone();
        assert(modes@.take(i + 1).drop_last() =~= modes@.take(i as int));
        let mut j: usize = 0;
        let mut found = false;
        while j < out.len()
            invariant_except_break
                !found,
            invariant
                j <= out.len(),
                forall|k: int| 0 <= k < j ==> (#[trigger] out@[k]).0@ != key@,
            ensures
                found ==> j < out.len() && out@[j as int].0@ == key@,
                !found ==> j == out.len(),
            decreases out.len() - j,
        {
            if str_eq(out[j].0.as_str(), key.as_str()) {
                found = true;
                break;
            }
            j = j + 1;
        }
        let pair = (key, value);
        if found {
            proof {
                lemma_modes_update(out@, j as int, pair);
            }
            out.set(j, pair);
        } else {
            proof {
                lemma_modes_push(out@, pair);
            }
            out.push(pair);
        }
        i = i + 1;
    }
    assert(modes@.take(modes.len() as int) =~= modes@);
    out
}

/// The favourites `items` with their paths normalised.
fn normalize_favorites(items: &Vec<FavoriteItem>) -> (r: Vec<FavoriteItem>)
    ensures
        r@.len() == items@.len(),
        forall|i: int| 0 <= i < items@.len() ==> favorite_normalized(items@[i], #[trigger] r@[i]),
{
    let mut out: Vec<FavoriteItem> = Vec::new();
    let mut i: usize = 0;
    while i < items.len()
        invariant
            i <= items.len(),
            out@.len() == i,
            forall|k: int| 0 <= k < i ==> favorite_normalized(items@[k], #[trigger] out@[k]),
        decreases items.len() - i,
    {
        let item = &items[i];
        out.push(
            FavoriteItem {
                name: item.name.clone(),
                path: normalize_path(item.path.clone()),
                is_dir: item.is_dir,
            },
        );
        i = i + 1;
    }
    out
}

/// The pinned folders `items` with their paths normalised.
fn normalize_pinned(items: &Vec<PinnedFolder>) -> (r: Vec<PinnedFolder>)
    ensures
        r@.len() == items@.len(),
        forall|i: int| 0 <= i < items@.len() ==> pinned_normalized(items@[i], #[trigger] r@[i]),
{
    let mut out: Vec<PinnedFolder> = Vec::new();
    let mut i: usize = 0;
    while i < items.len()
        invariant
            i <= items.len(),
            out@.len() == i,
            forall|k: int| 0 <= k < i ==> pinned_normalized(items@[k], #[trigger] out@[k]),
        decreases items.len() - i,
    {
        let item = &items[i];
        let icon = match &item.icon {
            Some(s) => Some(s.clone()),
            None => None,
        };
        out.push(
            PinnedFolder {
                name: item.name.clone(),
                path: normalize_path(item.path.clone()),
                is_dir: item.is_dir,
                icon,
            },
        );
        i = i + 1;
    }
    out
}

/// The paths `items`, normalised.
fn normalize_paths(items: &Vec<String>) -> (r: Vec<String>)
    ensures
        r@.len() == items@.len(),
        forall|i: int| 0 <= i < items@.len() ==> (#[trigger] r@[i])@ == normalized(items@[i]@),
{
    let mut out: Vec<String> = Vec::new();
    let mut i: usize = 0;
    while i < items.len()
        invariant
            i <= items.len(),
            out@.len() == i,
            forall|k: int| 0 <= k < i ==> (#[trigger] out@[k])@ == normalized(items@[k]@),
        decreases items.len() - i,
    {
        out.push(normalize_path(items[i].clone()));
        i = i + 1;
    }
    out
}

/// A copy of `s` with every path normalised.
pub fn normalized_copy(s: &Settings) -> (r: Settings)
    ensures
        settings_normalized(*s, r),
{
    Settings {
        view_mode: s.view_mode.clone(),
        folder_view_modes: normalize_view_modes(&s.folder_view_modes),
        sort_by: s.sort_by.clone(),
        sort_asc: s.sort_asc,
        show_hidden: s.show_hidden,
        preview_panel: s.preview_panel,
        confirm_delete: s.confirm_delete,
        confirm_trash: s.confirm_trash,
        single_click_open: s.single_click_open,
        sidebar_width: s.sidebar_width,
        icon_size: s.icon_size,
        favorites: normalize_favorites(&s.favorites),
        pinned_folders: normalize_pinned(&s.pinned_folders),
        sidebar_bookmarks_initialized: s.sidebar_bookmarks_initialized,
        recent_paths: normalize_paths(&s.recent_paths),
    }
}


/// The settings a new user starts with.
impl Default for Settings {
    fn default() -> (s: Self)
        ensures
            s.view_mode@ == "list"@,
            s.folder_view_modes@.len() == 0,
            s.sort_by@ == "name"@,
            s.sort_asc,
            !s.show_hidden,
            !s.preview_panel,
            s.confirm_delete,
            !s.confirm_trash,
            !s.single_click_open,
            s.sidebar_width == 270,
            s.icon_size == 48,
            s.favorites@.len() == 0,
            s.pinned_folders@.len() == 0,
            !s.sidebar_bookmarks_initialized,
            s.recent_paths@.len() == 0,
    {
        Settings {
            view_mode: "list".to_string(),
            folder_view_modes: Vec::new(),
            sort_by: "name".to_string(),
            sort_asc: true,
            show_hidden: false,
            preview_panel: false,
            confirm_delete: true,
            confirm_trash: false,
            single_click_open: false,
            sidebar_width: 270,
            icon_size: 48,
            favorites: Vec::new(),
            pinned_folders: Vec::new(),
            sidebar_bookmarks_initialized: false,
            recent_paths: Vec::new(),
        }
    }
}

/// `b` equals `a` in everything but, possibly, the favourites and pinned folders.
pub open spec fn same_but_bookmarks(a: Settings, b: Settings) -> bool {
    &&& b.view_mode == a.view_mode
    &&& b.folder_view_modes == a.folder_view_modes
    &&& b.sort_by == a.sort_by
    &&& b.sort_asc == a.sort_asc
    &&& b.show_hidden == a.show_hidden
    &&& b.preview_panel == a.preview_panel
    &&& b.confirm_delete == a.confirm_delete
    &&& b.confirm_trash == a.confirm_trash
    &&& b.single_click_open == a.single_click_open
    &&& b.sidebar_width == a.sidebar_width
    &&& b.icon_size == a.icon_size
    &&& b.sidebar_bookmarks_initialized == a.sidebar_bookmarks_initialized
    &&& b.recent_paths == a.recent_paths
}

/// Some favourite in `favs` has the path `p`.
pub open spec fn has_favorite(favs: Seq<FavoriteItem>, p: Seq<char>) -> bool {
    exists|i: int| 0 <= i < favs.len() && (#[trigger] favs[i]).path@ == p
}

/// Some pinned folder in `pins` has the path `p`.
pub open spec fn has_pinned(pins: Seq<PinnedFolder>, p: Seq<char>) -> bool {
    exists|i: int| 0 <= i < pins.len() && (#[trigger] pins[i]).path@ == p
}

/// The settings as handed to the front end: a copy with every path normalised.
pub fn get_settings(settings: &Settings) -> (r: Settings)
    ensures
        settings_normalized(*settings, r),
{
    normalized_copy(settings)
}

/// Replaces the settings with `new_settings`, its paths normalised.
pub fn update_settings(new_settings: Settings, settings: &mut Settings)
    ensures
        settings_normalized(new_settings, *final(settings)),
{
    *settings = normalized_copy(&new_settings);
}

/// Adds `item`, its path normalised, to the favourites unless a favourite with
/// that path is already there. Returns whether it was added, that is whether
/// the settings changed and are to be saved.
pub fn add_favorite(item: FavoriteItem, settings: &mut Settings) -> (added: bool)
    ensures
        same_but_bookmarks(*old(settings), *final(settings)),
        final(settings).pinned_folders == old(settings).pinned_folders,
        added == !has_favorite(old(settings).favorites@, normalized(item.path@)),
        has_favorite(final(settings).favorites@, normalized(item.path@)),
        added ==> final(settings).favorites@.len() == old(settings).favorites@.len() + 1
            && final(settings).favorites@.drop_last() == old(settings).favorites@
            && favorite_normalized(item, final(settings).favorites@.last()),
        !added ==> final(settings).favorites == old(settings).favorites,
{
    let path = normalize_path(item.path);
    let mut i: usize = 0;
    while i < settings.favorites.len()
        invariant
            i <= settings.favorites.len(),
            *settings == *old(settings),
            path@ == normalized(item.path@),
            forall|k: int| 0 <= k < i ==> (#[trigger] settings.favorites@[k]).path@ != path@,
        decreases settings.favorites.len() - i,
    {
        if str_eq(settings.favorites[i].path.as_str(), path.as_str()) {
            assert(settings.favorites@[i as int].path@ == path@);
            assert(has_favorite(old(settings).favorites@, path@));
            return false;
        }
        i = i + 1;
    }
    let entry = FavoriteItem { name: item.name, path, is_dir: item.is_dir };
    settings.favorites.push(entry);
    proof {
        assert(settings.favorites@.drop_last() =~= old(settings).favorites@);
        let n = old(settings).favorites@.len() as int;
        assert(settings.favorites@[n].path@ == normalized(item.path@));
    }
    true
}

/// Adds `folder`, its path normalised, to the pinned folders unless one with
/// that path is already there. Returns whether it was added.
pub fn add_pinned_folder(folder: PinnedFolder, settings: &mut Settings) -> (added: bool)
    ensures
        same_but_bookmarks(*old(settings), *final(settings)),
        final(settings).favorites == old(settings).favorites,
        added == !has_pinned(old(settings).pinned_folders@, normalized(folder.path@)),
        has_pinned(final(settings).pinned_folders@, normalized(folder.path@)),
        added ==> final(settings).pinned_folders@.len() == old(settings).pinned_folders@.len() + 1
            && final(settings).pinned_folders@.drop_last() == old(settings).pinned_folders@
            && pinned_normalized(folder, final(settings).pinned_folders@.last()),
        !added ==> final(settings).pinned_folders == old(settings).pinned_folders,
{
    let path = normalize_path(folder.path);
    let mut i: usize = 0;
    while i < settings.pinned_folders.len()
        invariant
            i <= settings.pinned_folders.len(),
            *settings == *old(settings),
            path@ == normalized(folder.path@),
            forall|k: int| 0 <= k < i ==> (#[trigger] settings.pinned_folders@[k]).path@ != path@,
        decreases settings.pinned_folders.len() - i,
    {
        if str_eq(settings.pinned_folders[i].path.as_str(), path.as_str()) {
            assert(settings.pinned_folders@[i as int].path@ == path@);
            assert(has_pinned(old(settings).pinned_folders@, path@));
            return false;
        }
        i = i + 1;
    }
    let entry = PinnedFolder { name: folder.name, path, is_dir: folder.is_dir, icon: folder.icon };
    settings.pinned_folders.push(entry);
    proof {
        assert(settings.pinned_folders@.drop_last() =~= old(settings).pinned_folders@);
        let n = old(settings).pinned_folders@.len() as int;
        assert(settings.pinned_folders@[n].path@ == normalized(folder.path@));
    }
    true
}

/// The favourites in `favs` whose path is not `p`, in order.
pub open spec fn favorites_without(favs: Seq<FavoriteItem>, p: Seq<char>) -> Seq<FavoriteItem> {
    favs.filter(favorite_not_at(p))
}

/// A favourite whose path is not `p`.
pub open spec fn favorite_not_at(p: Seq<char>) -> spec_fn(FavoriteItem) -> bool {
    |f: FavoriteItem| f.path@ != p
}

/// A pinned folder whose path is not `p`.
pub open spec fn pinned_not_at(p: Seq<char>) -> spec_fn(PinnedFolder) -> bool {
    |f: PinnedFolder| f.path@ != p
}

/// The pinned folders in `pins` whose path is not `p`, in order.
pub open spec fn pinned_without(pins: Seq<PinnedFolder>, p: Seq<char>) -> Seq<PinnedFolder> {
    pins.filter(pinned_not_at(p))
}

/// Removes every favourite whose path is `path`, once normalised.
pub fn remove_favorite(path: String, settings: &mut Settings)
    ensures
        same_but_bookmarks(*old(settings), *final(settings)),
        final(settings).pinned_folders == old(settings).pinned_folders,
        final(settings).favorites@ == favorites_without(
            old(settings).favorites@,
            normalized(path@),
        ),
        !has_favorite(final(settings).favorites@, normalized(path@)),
{
    let path = normalize_path(path);
    let ghost p = path@;
    let mut kept: Vec<FavoriteItem> = Vec::new();
    let mut i: usize = 0;
    while i < settings.favorites.len()
        invariant
            i <= settings.favorites.len(),
            settings.favorites == old(settings).favorites,
            p == path@,
            kept@ == favorites_without(settings.favorites@.take(i as int), p),
        decreases settings.favorites.len() - i,
    {
        let ghost before = kept@;
        let f = &settings.favorites[i];
        let keep = !str_eq(f.path.as_str(), path.as_str());
        if keep {
            let e = FavoriteItem { name: f.name.clone(), path: f.path.clone(), is_dir: f.is_dir };
            assert(e == settings.favorites@[i as int]);
            kept.push(e);
        }
        proof {
            reveal_with_fuel(Seq::<_>::filter, 1);
            let ghost t = settings.favorites@.take(i + 1);
            assert(t.drop_last() =~= settings.favorites@.take(i as int));
            assert(t.last() == settings.favorites@[i as int]);
            assert(keep == (t.last().path@ != p));
            if keep {
                assert(kept@ =~= before.push(t.last()));
            } else {
                assert(kept@ =~= before);
            }
            assert(kept@ == favorites_without(t, p));
        }
        i = i + 1;
    }
    assert(settings.favorites@.take(settings.favorites.len() as int) =~= settings.favorites@);
    settings.favorites = kept;
    proof {
        lemma_no_favorite_after_filter(old(settings).favorites@, p);
    }
}

/// Removes every pinned folder whose path is `path`, once normalised.
pub fn remove_pinned_folder(path: String, settings: &mut Settings)
    ensures
        same_but_bookmarks(*old(settings), *final(settings)),
        final(settings).favorites == old(settings).favorites,
        final(settings).pinned_folders@ == pinned_without(
            old(settings).pinned_folders@,
            normalized(path@),
        ),
        !has_pinned(final(settings).pinned_folders@, normalized(path@)),
{
    let path = normalize_path(path);
    let ghost p = path@;
    let mut kept: Vec<PinnedFolder> = Vec::new();
    let mut i: usize = 0;
    while i < settings.pinned_folders.len()
        invariant
            i <= settings.pinned_folders.len(),
            settings.pinned_folders == old(settings).pinned_folders,
            p == path@,
            kept@ == pinned_without(settings.pinned_folders@.take(i as int), p),
        decreases settings.pinned_folders.len() - i,
    {
        let ghost before = kept@;
        let f = &settings.pinned_folders[i];
        let keep = !str_eq(f.path.as_str(), path.as_str());
        if keep {
            let icon = match &f.icon {
                Some(s) => Some(s.clone()),
                None => None,
            };
            let e = PinnedFolder { name: f.name.clone(), path: f.path.clone(), is_dir: f.is_dir, icon };
            assert(e == settings.pinned_folders@[i as int]);
            kept.push(e);
        }
        proof {
            reveal_with_fuel(Seq::<_>::filter, 1);
            let ghost t = settings.pinned_folders@.take(i + 1);
            assert(t.drop_last() =~= settings.pinned_folders@.take(i as int));
            assert(t.last() == settings.pinned_folders@[i as int]);
            assert(keep == (t.last().path@ != p));
            if keep {
                assert(kept@ =~= before.push(t.last()));
            } else {
                assert(kept@ =~= before);
            }
            assert(kept@ == pinned_without(t, p));
        }
        i = i + 1;
    }
    assert(settings.pinned_folders@.take(settings.pinned_folders.len() as int) =~= settings.pinned_folders@);
    settings.pinned_folders = kept;
    proof {
        lemma_no_pinned_after_filter(old(settings).pinned_folders@, p);
    }
}

proof fn lemma_no_favorite_after_filter(favs: Seq<FavoriteItem>, p: Seq<char>)
    ensures
        !has_favorite(favorites_without(favs, p), p),
{
    broadcast use vstd::seq_lib::group_filter_ensures;
    let r = favorites_without(favs, p);
    assert forall|i: int| 0 <= i < r.len() implies (#[trigger] r[i]).path@ != p by {
        favs.lemma_filter_pred(favorite_not_at(p), i);
    }
}

proof fn lemma_no_pinned_after_filter(pins: Seq<PinnedFolder>, p: Seq<char>)
    ensures
        !has_pinned(pinned_without(pins, p), p),
{
    broadcast use vstd::seq_lib::group_filter_ensures;
    let r = pinned_without(pins, p);
    assert forall|i: int| 0 <= i < r.len() implies (#[trigger] r[i]).path@ != p by {
        pins.lemma_filter_pred(pinned_not_at(p), i);
    }
}

/// No two favourites share a path.
pub open spec fn favorite_paths_distinct(favs: Seq<FavoriteItem>) -> bool {
    forall|a: int, b: int| 0 <= a < b < favs.len() ==> (#[trigger] favs[a]).path@ != (#[trigger] favs[b]).path@
}

/// Removing the favourites of a path that none had gives them back as they
/// were.
proof fn lemma_filter_keeps_all(favs: Seq<FavoriteItem>, p: Seq<char>)
    requires
        !has_favorite(favs, p),
    ensures
        favorites_without(favs, p) == favs,
    decreases favs.len(),
{
    reveal_with_fuel(Seq::<_>::filter, 1);
    if favs.len() > 0 {
        assert(!has_favorite(favs.drop_last(), p)) by {
            if has_favorite(favs.drop_last(), p) {
                let i = choose|i: int| 0 <= i < favs.drop_last().len() && (#[trigger] favs.drop_last()[i]).path@ == p;
                assert(favs[i].path@ == p);
            }
        }
        lemma_filter_keeps_all(favs.drop_last(), p);
        assert(favs.last().path@ != p) by {
            assert(favs[favs.len() - 1].path@ != p);
        }
        assert(favs.drop_last().push(favs.last()) =~= favs);
    } else {
        assert(favorites_without(favs, p) =~= favs);
    }
}

/// Removing a favourite undoes adding it: where no favourite had the path of
/// `item`, adding it and removing its path gives back the favourites as they
/// were.
pub proof fn lemma_remove_undoes_add(favs: Seq<FavoriteItem>, item: FavoriteItem)
    requires
        !has_favorite(favs, item.path@),
    ensures
        favorites_without(favs.push(item), item.path@) == favs,
{
    reveal_with_fuel(Seq::<_>::filter, 1);
    assert(favs.push(item).drop_last() =~= favs);
    lemma_filter_keeps_all(favs, item.path@);
}

/// Adding a favourite only where its path is new keeps the paths distinct.
pub proof fn lemma_add_keeps_paths_distinct(favs: Seq<FavoriteItem>, item: FavoriteItem)
    requires
        favorite_paths_distinct(favs),
        !has_favorite(favs, item.path@),
    ensures
        favorite_paths_distinct(favs.push(item)),
{
    let r = favs.push(item);
    assert forall|a: int, b: int| 0 <= a < b < r.len() implies (#[trigger] r[a]).path@ != (#[trigger] r[b]).path@ by {
        if b == favs.len() {
            assert(r[a] == favs[a]);
        } else {
            assert(favs[a].path@ != favs[b].path@);
        }
    }
}

/// Removing favourites keeps the paths of the others distinct.
pub proof fn lemma_remove_keeps_paths_distinct(favs: Seq<FavoriteItem>, p: Seq<char>)
    requires
        favorite_paths_distinct(favs),
    ensures
        favorite_paths_distinct(favorites_without(favs, p)),
    decreases favs.len(),
{
    reveal_with_fuel(Seq::<_>::filter, 1);
    broadcast use vstd::seq_lib::group_filter_ensures;
    if favs.len() > 0 {
        let d = favs.drop_last();
        assert(favorite_paths_distinct(d)) by {
            assert forall|a: int, b: int| 0 <= a < b < d.len() implies (#[trigger] d[a]).path@ != (#[trigger] d[b]).path@ by {
                assert(favs[a].path@ != favs[b].path@);
            }
        }
        lemma_remove_keeps_paths_distinct(d, p);
        let fd = favorites_without(d, p);
        let x = favs.last();
        if x.path@ != p {
            let r = fd.push(x);
            assert(favorites_without(favs, p) == r);
            assert forall|a: int, b: int| 0 <= a < b < r.len() implies (#[trigger] r[a]).path@ != (#[trigger] r[b]).path@ by {
                if b == fd.len() {
                    assert(r[a] == fd[a]);
                    assert(fd.contains(fd[a]));
                    d.lemma_filter_contains_rev(favorite_not_at(p), fd[a]);
                    let k = choose|k: int| 0 <= k < d.len() && d[k] == fd[a];
                    assert(favs[k].path@ != favs[favs.len() - 1].path@);
                } else {
                    assert(fd[a].path@ != fd[b].path@);
                }
            }
        }
    }
}

} // verus!
