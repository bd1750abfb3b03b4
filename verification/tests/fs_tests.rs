use rover::fs_ops::{
    detect_image_mime, directory_exists_error, file_entry_from_path, file_exists_error, get_file_info, get_home_dir,
    get_thumbnail, get_user_dirs, guess_image_mime, list_directory, new_item_path, read_text_file,
    rename_exists_error, rename_target, sniff_image_mime, DirectoryListing, EntryKind, EntryMetadata, FileEntry, ImageGuess,
    MAX_THUMBNAIL_BYTES,
};

fn meta(is_dir: bool, len: u64) -> EntryMetadata {
    EntryMetadata {
        is_symlink: false,
        kind: if is_dir { EntryKind::Directory } else { EntryKind::File },
        len,
        target: None,
        modified: Some(100),
        created: None,
        accessed: Some(5),
        mode: 0o100644,
        uid: 1000,
        gid: 1000,
    }
}

fn entry(name: &str, is_dir: bool, hidden: bool, size: u64) -> FileEntry {
    FileEntry {
        name: name.to_string(),
        path: format!("/d/{name}"),
        is_dir,
        is_file: !is_dir,
        is_symlink: false,
        is_hidden: hidden,
        size,
        modified: None,
        created: None,
        accessed: None,
        mime_type: None,
        extension: None,
        permissions: 0,
        uid: 0,
        gid: 0,
    }
}

#[test]
fn image_signatures() {
    assert_eq!(sniff_image_mime(b"\x89PNG\r\n\x1a\nrest").as_deref(), Some("image/png"));
    assert_eq!(sniff_image_mime(b"\xff\xd8\xff\xe0").as_deref(), Some("image/jpeg"));
    assert_eq!(sniff_image_mime(b"GIF89a..").as_deref(), Some("image/gif"));
    assert_eq!(sniff_image_mime(b"GIF87a").as_deref(), Some("image/gif"));
    assert_eq!(sniff_image_mime(b"BM....").as_deref(), Some("image/bmp"));
    assert_eq!(sniff_image_mime(b"RIFF\0\0\0\0WEBPVP8 ").as_deref(), Some("image/webp"));
    assert_eq!(sniff_image_mime(b"RIFF\0\0\0\0WAVE").as_deref(), None);
    assert_eq!(sniff_image_mime(b"  \n<svg xmlns=''>").as_deref(), Some("image/svg+xml"));
    assert_eq!(sniff_image_mime(b"hello").as_deref(), None);
    assert_eq!(sniff_image_mime(b"").as_deref(), None);
}

#[test]
fn image_types_from_names() {
    assert!(matches!(guess_image_mime("/a/b.jpg"), ImageGuess::Image(m) if m == "image/jpeg"));
    assert!(matches!(guess_image_mime("/a/b.txt"), ImageGuess::NotImage));
    assert!(matches!(guess_image_mime("/a/b"), ImageGuess::FromContent));
    assert_eq!(detect_image_mime("/a/b.png", None).as_deref(), Some("image/png"));
    assert_eq!(detect_image_mime("/a/b.txt", Some(b"\x89PNG\r\n\x1a\n")).as_deref(), None);
    assert_eq!(detect_image_mime("/a/b", Some(b"\x89PNG\r\n\x1a\n")).as_deref(), Some("image/png"));
    assert_eq!(detect_image_mime("/a/b", None).as_deref(), None);
}

#[test]
fn entries_from_metadata() {
    let e = file_entry_from_path("/d/.notes.txt", meta(false, 12), None);
    assert_eq!(e.name, ".notes.txt");
    assert!(e.is_hidden);
    assert!(e.is_file);
    assert_eq!(e.size, 12);
    assert_eq!(e.extension.as_deref(), Some("txt"));
    assert_eq!(e.mime_type.as_deref(), Some("text/plain"));
    assert_eq!(e.modified, Some(100));
    assert_eq!(e.permissions, 0o100644);
    let d = file_entry_from_path("/d/sub", meta(true, 4096), None);
    assert!(d.is_dir);
    assert_eq!(d.extension, None);
    assert_eq!(d.mime_type, None);
    let mut link = meta(false, 3);
    link.is_symlink = true;
    link.target = None;
    let l = file_entry_from_path("/d/broken", link, None);
    assert!(!l.is_dir && !l.is_file);
    assert_eq!(l.size, 0);
    assert!(l.is_symlink);
    let mut link = meta(false, 3);
    link.is_symlink = true;
    link.target = Some((EntryKind::Directory, 99));
    let l = file_entry_from_path("/d/lnk", link, None);
    assert!(l.is_dir);
    assert_eq!(l.size, 99);
    assert!(get_file_info("/x".to_string(), Err("denied".to_string()), None).is_err());
    assert!(get_file_info("/x".to_string(), Ok(meta(false, 1)), None).is_ok());
}

#[test]
fn directory_listing_order_and_filters() {
    let entries = vec![
        entry("b.txt", false, false, 2),
        entry("Alpha", true, false, 0),
        entry(".hidden", false, true, 100),
        entry("a.txt", false, false, 3),
        entry("mnt", true, false, 0),
        entry("beta", true, false, 0),
    ];
    let mounts = vec!["/d/mnt".to_string()];
    let c = list_directory("/d".to_string(), false, DirectoryListing::Entries(entries), &mounts).ok().unwrap();
    let names: Vec<&str> = c.entries.iter().map(|e| e.name.as_str()).collect();
    assert_eq!(names, vec!["Alpha", "beta", "a.txt", "b.txt"]);
    assert_eq!(c.total_items, 4);
    assert_eq!(c.total_size, 5);
    assert_eq!(c.path, "/d");
    let shown = list_directory("/d".to_string(), true, DirectoryListing::Entries(vec![entry(".h", false, true, 7)]), &Vec::new()).ok().unwrap();
    assert_eq!(shown.total_items, 1);
    assert_eq!(shown.total_size, 7);
    assert_eq!(list_directory("/x".to_string(), false, DirectoryListing::Missing, &mounts).err().unwrap(), "Path does not exist: /x");
    assert_eq!(list_directory("/x".to_string(), false, DirectoryListing::NotDirectory, &mounts).err().unwrap(), "Path is not a directory: /x");
    assert_eq!(list_directory("/x".to_string(), false, DirectoryListing::Unreadable("denied".to_string()), &mounts).err().unwrap(), "denied");
}

#[test]
fn reading_text_files() {
    assert_eq!(read_text_file(b"hello".to_vec(), None), Ok("hello".to_string()));
    assert_eq!(read_text_file(b"hello".to_vec(), Some(3)), Ok("hel".to_string()));
    assert_eq!(read_text_file(vec![0xff, 0xfe], None), Err("File is not valid UTF-8 text".to_string()));
    assert_eq!(read_text_file(vec![b'a', 0xff, b'b'], Some(2)), Ok("a\u{fffd}".to_string()));
    assert_eq!(read_text_file(Vec::new(), Some(0)), Ok(String::new()));
}

#[test]
fn thumbnails() {
    assert_eq!(get_thumbnail("/i.png".to_string(), true, Some("image/png".to_string()), Ok(10)), Ok(Some("/i.png".to_string())));
    assert_eq!(get_thumbnail("/i.png".to_string(), false, Some("image/png".to_string()), Ok(10)), Ok(None));
    assert_eq!(get_thumbnail("/i.txt".to_string(), true, None, Ok(10)), Ok(None));
    assert_eq!(get_thumbnail("/i.png".to_string(), true, Some("image/png".to_string()), Ok(MAX_THUMBNAIL_BYTES + 1)), Ok(None));
    assert_eq!(get_thumbnail("/i.png".to_string(), true, Some("image/png".to_string()), Ok(MAX_THUMBNAIL_BYTES)), Ok(Some("/i.png".to_string())));
    assert_eq!(get_thumbnail("/i.png".to_string(), true, Some("image/png".to_string()), Err("gone".to_string())), Err("gone".to_string()));
}

#[test]
fn new_and_renamed_items() {
    assert_eq!(new_item_path("/d", "f.txt"), "/d/f.txt");
    assert_eq!(file_exists_error("/d/f"), "File already exists: /d/f");
    assert_eq!(directory_exists_error("/d/g"), "Directory already exists: /d/g");
    assert_eq!(rename_target("/d/a.txt", "b.txt"), Ok("/d/b.txt".to_string()));
    assert_eq!(rename_target("/", "b"), Err("Cannot get parent directory".to_string()));
    assert_eq!(rename_exists_error(), "An item with that name already exists");
    assert_eq!(get_home_dir(Some("/h".to_string())), Ok("/h".to_string()));
    assert_eq!(get_home_dir(None), Err("Could not determine home directory".to_string()));
    let dirs = get_user_dirs(Some("/h".to_string()), Some("/h/Docs".to_string()), None, None, None, None, None).ok().unwrap();
    assert_eq!(dirs.home, "/h");
    assert_eq!(dirs.documents.as_deref(), Some("/h/Docs"));
    assert!(get_user_dirs(None, None, None, None, None, None, None).is_err());
}

#[test]
fn listing_ignores_case() {
    let entries = vec![entry("B.txt", false, false, 1), entry("a.txt", false, false, 1), entry("C", true, false, 0), entry("b", true, false, 0)];
    let c = list_directory("/d".to_string(), false, DirectoryListing::Entries(entries), &Vec::new()).ok().unwrap();
    let names: Vec<&str> = c.entries.iter().map(|e| e.name.as_str()).collect();
    assert_eq!(names, vec!["b", "C", "a.txt", "B.txt"]);
}

#[test]
fn entry_of_other_kind_is_neither() {
    let mut m = meta(false, 0);
    m.kind = EntryKind::Other;
    let e = file_entry_from_path("/dev/null", m, None);
    assert!(!e.is_dir && !e.is_file);
    assert_eq!(e.extension, None);
    assert_eq!(e.mime_type, None);
}

#[test]
fn listing_hides_mount_points_by_components() {
    let entries = vec![entry("mnt", true, false, 0), entry("a.txt", false, false, 1)];
    let mounts = vec!["/d//mnt/".to_string()];
    let c = list_directory("/d".to_string(), false, DirectoryListing::Entries(entries), &mounts).ok().unwrap();
    let names: Vec<&str> = c.entries.iter().map(|e| e.name.as_str()).collect();
    assert_eq!(names, vec!["a.txt"]);
}
