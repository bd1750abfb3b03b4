use rover::trash::{
    drive_trash_paths, empty_trash, empty_trash_location, home_trash_path, info_file_path, sorted_trash_contents,
    parse_trashinfo, push_trash_location, resolve_trash_item, trash_fallback_error, trash_item_from_entry,
    trash_locations, urlencoding_decode, TrashItem, TrashLocation,
};
use rover::trash::{list_trash, restore_target, TrashEntry};

fn loc(name: &str, path: &str) -> TrashLocation {
    TrashLocation { id: path.to_string(), name: name.to_string(), path: path.to_string() }
}

fn item(id: &str, deleted_at: i64, size: u64) -> TrashItem {
    TrashItem {
        id: id.to_string(),
        name: id.to_string(),
        original_path: format!("/home/u/{id}"),
        trash_path: "/t".to_string(),
        trash_name: "Home".to_string(),
        deleted_at,
        size,
        is_dir: false,
    }
}

#[test]
fn url_decoding() {
    assert_eq!(urlencoding_decode("a%20b"), "a b");
    assert_eq!(urlencoding_decode("%41%42c"), "ABc");
    assert_eq!(urlencoding_decode("100%"), "100%");
    assert_eq!(urlencoding_decode("%2"), "%2");
    assert_eq!(urlencoding_decode("%zz!"), "%zz!");
    assert_eq!(urlencoding_decode("%+F"), "\u{f}");
    assert_eq!(urlencoding_decode("%C3%A9"), "é");
    assert_eq!(urlencoding_decode("/home/u/%C3%A9.txt"), "/home/u/é.txt");
    assert_eq!(urlencoding_decode("caf%C3%A9 %E2%82%AC"), "café €");
    assert_eq!(urlencoding_decode("déjà vu"), "déjà vu");
    assert_eq!(urlencoding_decode("a%FFb"), "a\u{fffd}b");
    assert_eq!(urlencoding_decode("%C3"), "\u{fffd}");
    assert_eq!(urlencoding_decode("plain"), "plain");
}

#[test]
fn trashinfo_records() {
    let info = "[Trash Info]\nPath=/home/u/My%20File.txt\nDeletionDate=2024-03-05T10:20:30\n";
    assert_eq!(parse_trashinfo(info), Some(("/home/u/My File.txt".to_string(), 1709634030)));
    let no_date = "[Trash Info]\nPath=/x\nDeletionDate=yesterday\n";
    assert_eq!(parse_trashinfo(no_date), Some(("/x".to_string(), 0)));
    assert_eq!(parse_trashinfo("[Trash Info]\nDeletionDate=2024-03-05T10:20:30\n"), None);
    assert_eq!(
        parse_trashinfo("[Trash Info]\nPath=/home/u/%C3%A9t%C3%A9.txt\n"),
        Some(("/home/u/été.txt".to_string(), 0))
    );
    let twice = "Path=/a\nPath=/b\r\n";
    assert_eq!(parse_trashinfo(twice), Some(("/b".to_string(), 0)));
}

#[test]
fn trash_listing_is_newest_first() {
    let items = vec![item("a", 5, 10), item("b", 50, 20), item("c", 20, 30), item("d", 50, 1)];
    let c = sorted_trash_contents(items, vec![loc("Home", "/t")]);
    let order: Vec<&str> = c.items.iter().map(|i| i.id.as_str()).collect();
    assert_eq!(order, vec!["b", "d", "c", "a"]);
    assert_eq!(c.total_items, 4);
    assert_eq!(c.total_size, 61);
    assert_eq!(c.locations.len(), 1);
    let empty = sorted_trash_contents(Vec::new(), Vec::new());
    assert_eq!(empty.total_items, 0);
    assert_eq!(empty.total_size, 0);
}

#[test]
fn trash_locations_are_listed_once() {
    let mut ls = Vec::new();
    push_trash_location(&mut ls, "Home".to_string(), "/h/.local/share/Trash".to_string());
    push_trash_location(&mut ls, "Disk".to_string(), "/h/.local/share/Trash".to_string());
    assert_eq!(ls.len(), 1);
    assert_eq!(ls[0].id, "/h/.local/share/Trash");
    let all = trash_locations(
        "/h/T".to_string(),
        vec![("Disk".to_string(), "/m/.Trash/1000".to_string()), ("Disk".to_string(), "/m/.Trash/1000".to_string()), ("Usb".to_string(), "/u/.Trash-1000".to_string())],
    );
    let paths: Vec<&str> = all.iter().map(|l| l.path.as_str()).collect();
    assert_eq!(paths, vec!["/h/T", "/m/.Trash/1000", "/u/.Trash-1000"]);
    assert_eq!(all[0].name, "Home");
    assert_eq!(all[2].name, "Usb");
}

#[test]
fn home_and_drive_trash_paths() {
    assert_eq!(home_trash_path(Some("/data".to_string()), Some("/h".to_string())), Ok("/data/Trash".to_string()));
    assert_eq!(home_trash_path(None, Some("/h".to_string())), Ok("/h/.local/share/Trash".to_string()));
    assert_eq!(home_trash_path(None, None), Err("Could not get home directory".to_string()));
    assert_eq!(drive_trash_paths("/media/usb", 1000), ("/media/usb/.Trash/1000".to_string(), "/media/usb/.Trash-1000".to_string()));
    assert_eq!(empty_trash_location("/t"), ("/t/files".to_string(), "/t/info".to_string()));
    assert_eq!(info_file_path("/t", "a.txt"), "/t/info/a.txt.trashinfo");
}

#[test]
fn resolving_trash_items() {
    let ls = vec![loc("Home", "/t")];
    assert_eq!(
        resolve_trash_item("/t/files/a.txt", &ls),
        Ok(("/t/files/a.txt".to_string(), "/t/info/a.txt.trashinfo".to_string(), "a.txt".to_string()))
    );
    assert_eq!(resolve_trash_item("/t/other/a.txt", &ls), Err("Trash item is outside a files directory: /t/other/a.txt".to_string()));
    assert_eq!(resolve_trash_item("/x/files/a.txt", &ls), Err("Trash item is outside known trash locations: /x/files/a.txt".to_string()));
    assert_eq!(resolve_trash_item("/", &ls), Err("Invalid trash item: /".to_string()));
}

#[test]
fn emptying_the_trash() {
    let ls = vec![loc("Home", "/t"), loc("Disk", "/m/.Trash-1000")];
    assert_eq!(empty_trash(None, &ls), Ok(vec!["/t".to_string(), "/m/.Trash-1000".to_string()]));
    assert_eq!(empty_trash(Some("/t".to_string()), &ls), Ok(vec!["/t".to_string()]));
    assert_eq!(empty_trash(Some("/etc".to_string()), &ls), Err("Unknown trash location: /etc".to_string()));
}

#[test]
fn items_from_entries() {
    let l = loc("Home", "/t");
    let with = trash_item_from_entry(&l, "a".to_string(), "/t/files/a".to_string(), 5, false, Some(("/home/a".to_string(), 77)));
    assert_eq!(with.original_path, "/home/a");
    assert_eq!(with.deleted_at, 77);
    assert_eq!(with.id, "/t/files/a");
    assert_eq!(with.trash_name, "Home");
    let without = trash_item_from_entry(&l, "b".to_string(), "/t/files/b".to_string(), 0, true, None);
    assert_eq!(without.original_path, "/t/files/b");
    assert_eq!(without.deleted_at, 0);
    assert!(without.is_dir);
    assert_eq!(trash_fallback_error("e1", "e2"), "e1; e2");
}

#[test]
fn trash_listing_ties_items_to_locations() {
    let entry = |location: usize, name: &str, size: u64, info: Option<(&str, i64)>| TrashEntry {
        location,
        name: name.to_string(),
        entry_path: format!("/t{location}/files/{name}"),
        size,
        is_dir: false,
        info: info.map(|(p, t)| (p.to_string(), t)),
    };
    let drives = vec![("Disk".to_string(), "/d/.Trash-1000".to_string()), ("Again".to_string(), "/h/Trash".to_string())];
    let listing = list_trash(
        "/h/Trash".to_string(),
        drives,
        vec![
            entry(0, "a", 5, Some(("/home/a", 10))),
            entry(1, "b", 7, Some(("/d/b", 30))),
            entry(2, "c", 100, None),
            entry(0, "d", 1, None),
        ],
    );
    assert_eq!(listing.locations.len(), 2);
    assert_eq!(listing.locations[0].name, "Home");
    assert_eq!(listing.locations[0].path, "/h/Trash");
    assert_eq!(listing.locations[1].path, "/d/.Trash-1000");
    assert_eq!(listing.total_items, 3);
    assert_eq!(listing.total_size, 13);
    let names: Vec<&str> = listing.items.iter().map(|i| i.name.as_str()).collect();
    assert_eq!(names, vec!["b", "a", "d"]);
    assert_eq!(listing.items[0].trash_path, "/d/.Trash-1000");
    assert_eq!(listing.items[0].trash_name, "Disk");
    assert_eq!(listing.items[1].trash_path, "/h/Trash");
    assert_eq!(listing.items[2].original_path, "/t0/files/d");
}

#[test]
fn trash_item_paths_compared_by_components() {
    let ls = vec![loc("Home", "/t/")];
    let (file, info, name) = resolve_trash_item("/t//files/a.txt", &ls).unwrap();
    assert_eq!(file, "/t//files/a.txt");
    assert_eq!(name, "a.txt");
    assert!(info == "/t/info/a.txt.trashinfo" || info == "/t//info/a.txt.trashinfo");
}

#[test]
fn restore_targets() {
    assert_eq!(restore_target("a", false, Some(("/h/a".to_string(), 1))), Err("Item not found in trash: a".to_string()));
    assert_eq!(restore_target("a", true, None), Err("Could not find original path for: a".to_string()));
    assert_eq!(restore_target("a", true, Some(("/h/a".to_string(), 1))), Ok("/h/a".to_string()));
}

#[test]
fn trash_listing_lists_every_entry() {
    let entry = |name: &str, t: i64| TrashEntry {
        location: 0,
        name: name.to_string(),
        entry_path: format!("/h/Trash/files/{name}"),
        size: 2,
        is_dir: false,
        info: Some((format!("/h/{name}"), t)),
    };
    let listing = list_trash("/h/Trash".to_string(), Vec::new(), vec![entry("x", 5), entry("y", 5), entry("z", 9)]);
    let mut names: Vec<&str> = listing.items.iter().map(|i| i.name.as_str()).collect();
    assert_eq!(names[0], "z");
    names.sort();
    assert_eq!(names, vec!["x", "y", "z"]);
    assert_eq!(listing.total_size, 6);
}
