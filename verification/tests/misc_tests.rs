use rover::drives::{list_drives, MountProbe};
use rover::paths::{extension, file_name, file_stem, join};
use rover::file_actions::{after_attempt, Attempt, NextStep};
use rover::chooser::{accept_chooser, cancel_chooser, get_chooser_config, inactive_config, ChooserMode, ChooserSession, ChooserState};
use rover::drives::{
    base_block_device, decode_mount_field, drive_command_error, eject_drive, get_drive_info, is_user_media_mount,
    sorted_drive_list, parse_mount_options, should_include_mount, should_skip_mount, visible_mount_points, DriveInfo,
};
use rover::file_actions::{
    destination_path, free_destination, guard, plan_destinations, numbered_destination, operation_totals, pkexec_result, program_candidates,
    program_path, signed_decimal_string, GuardAction, OperationTracker,
};
use rover::json::JsonValue;
use rover::operations_queue::{OperationStatus, OperationType, OperationsQueue};
use rover::path_codec::{hex_value, is_path_list_key, is_single_path_key, normalize_json_paths, normalize_path, percent_decode};
use rover::settings::{add_favorite, add_pinned_folder, remove_favorite, remove_pinned_folder, FavoriteItem, PinnedFolder, Settings};
use rover::system_status::background_effect_status;
use rover::web_entry::{single_instance, window_page, WindowPage};
use rover::web_entry::{bundled, bundled_candidate, installed, installed_candidates, resolve, resources_root};

fn drive(name: &str, mp: &str, device: &str, removable: bool) -> DriveInfo {
    DriveInfo {
        name: name.to_string(),
        mount_point: mp.to_string(),
        device: device.to_string(),
        fs_type: "ext4".to_string(),
        total_space: 100,
        available_space: 40,
        used_space: 60,
        is_removable: removable,
        is_readonly: false,
    }
}

#[test]
fn operation_totals_and_destinations() {
    assert_eq!(operation_totals(&vec![(10, 1), (5, 3)]), (15, 4));
    assert_eq!(operation_totals(&Vec::new()), (0, 1));
    assert_eq!(
        destination_path("/src/photo.jpg", "/dst"),
        Ok(("/dst/photo.jpg".to_string(), "photo".to_string(), ".jpg".to_string()))
    );
    assert_eq!(destination_path("/src/Makefile", "/dst"), Ok(("/dst/Makefile".to_string(), "Makefile".to_string(), String::new())));
    assert_eq!(destination_path("/", "/dst"), Err("Invalid source path".to_string()));
    assert_eq!(numbered_destination("/dst", "photo", ".jpg", 2), "/dst/photo (2).jpg");
}

#[test]
fn elevated_command_results() {
    assert_eq!(pkexec_result(Some(0)), Ok(()));
    assert_eq!(pkexec_result(Some(126)), Err("Authentication cancelled".to_string()));
    assert_eq!(pkexec_result(Some(127)), Err("Authentication failed or unavailable".to_string()));
    assert_eq!(pkexec_result(Some(1)), Err("Elevated operation failed with exit code 1".to_string()));
    assert_eq!(pkexec_result(Some(-3)), Err("Elevated operation failed with exit code -3".to_string()));
    assert_eq!(pkexec_result(None), Err("Elevated operation was interrupted".to_string()));
    assert_eq!(signed_decimal_string(i64::MIN), "-9223372036854775808");
    assert_eq!(program_candidates("mv"), vec!["/usr/bin/mv".to_string(), "/bin/mv".to_string()]);
    assert!(program_candidates("sh").is_empty());
    assert_eq!(program_path("sh", true, true), Err("Required system tool is missing: sh".to_string()));
    assert_eq!(program_path("mv", false, true), Ok("/bin/mv".to_string()));
    assert_eq!(program_path("mv", true, true), Ok("/usr/bin/mv".to_string()));
    assert_eq!(program_path("gio", true, false), Ok("/usr/bin/gio".to_string()));
    assert_eq!(program_path("rm", false, false), Err("Required system tool is missing: rm".to_string()));
}

#[test]
fn trackers_and_guards() {
    assert_eq!(guard(Some(OperationStatus::Cancelled)), GuardAction::Cancel);
    assert_eq!(guard(Some(OperationStatus::Paused)), GuardAction::Wait);
    assert_eq!(guard(Some(OperationStatus::InProgress)), GuardAction::Proceed);
    assert_eq!(guard(None), GuardAction::Proceed);
    let mut q = OperationsQueue::new();
    q.add_operation_with("c".to_string(), 1, OperationType::Copy, vec![], None, 10, 2);
    let mut t = OperationTracker::new("c".to_string());
    t.add_bytes(&mut q, 4, "/a");
    t.add_item(&mut q, "/a");
    assert_eq!((t.bytes_processed, t.items_processed), (4, 1));
    t.add_bytes(&mut q, u64::MAX, "/b");
    assert_eq!(t.bytes_processed, u64::MAX);
    let s = q.get_status();
    assert_eq!(s.operations[0].bytes_processed, 10);
    assert_eq!(s.operations[0].current_file.as_deref(), Some("/b"));
    assert_eq!(t.guard_action(&q), GuardAction::Proceed);
}

#[test]
fn background_effect() {
    let s = background_effect_status(Some("wayland".to_string()), true);
    assert_eq!(s.background_effect, "translucent");
    assert_eq!(s.background_effect_reason, "Using compositor-provided ext-background-effect-v1");
    let s = background_effect_status(Some("wayland".to_string()), false);
    assert_eq!(s.background_effect, "opaque");
    assert_eq!(s.background_effect_reason, "Opaque fallback until ext-background-effect-v1 is reported");
    let s = background_effect_status(None, true);
    assert_eq!(s.background_effect, "opaque");
    assert_eq!(s.background_effect_reason, "Opaque fallback for this desktop session");
}

#[test]
fn web_entries() {
    assert_eq!(
        installed_candidates(Some("/e.html".to_string()), None, Some("/app".to_string())),
        vec!["/e.html".to_string(), "/app/web/index.html".to_string()]
    );
    assert_eq!(resources_root("/usr/bin/rover"), Some("/usr/share/sabine".to_string()));
    assert_eq!(resources_root("/"), None);
    assert_eq!(bundled_candidate("/usr/share/sabine/1.0"), "/usr/share/sabine/1.0/web/index.html");
    let page = |p: &str, is_file: bool| (p.to_string(), is_file);
    assert_eq!(
        bundled(&vec![page("/b/x", true), page("/a-b/x", true), page("/a/x", true)]),
        Some("/a/x".to_string())
    );
    assert_eq!(bundled(&vec![page("/a/x", false), page("/c/x", true), page("/b/x", true)]), Some("/b/x".to_string()));
    assert_eq!(bundled(&vec![page("/a/x", false)]), None);
    assert_eq!(bundled(&Vec::new()), None);
    assert_eq!(installed(&vec![page("/e.html", false), page("/w/index.html", true), page("/a/web/index.html", true)]), Some("/w/index.html".to_string()));
    assert_eq!(installed(&vec![page("/e.html", false)]), None);
    assert_eq!(resolve(&vec![], &vec![], "/src"), "/src/build/index.html");
    assert_eq!(resolve(&vec![page("/i", false)], &vec![page("/b", true)], "/src"), "/b");
    assert_eq!(resolve(&vec![page("/i", true)], &vec![page("/b", true)], "/src"), "/i");
    assert_eq!(resolve(&vec![page("/i", false)], &vec![page("/b", false)], "/src"), "/src/build/index.html");
}

#[test]
fn path_normalisation() {
    assert_eq!(normalize_path("  /home/u  ".to_string()), "/home/u");
    assert_eq!(normalize_path("file:///home/u/a%20b".to_string()), "/home/u/a b");
    assert_eq!(normalize_path("file://localhost/etc".to_string()), "/etc");
    assert_eq!(normalize_path("%2Fetc%2Fx".to_string()), "/etc/x");
    assert_eq!(normalize_path("relative%20x".to_string()), "relative%20x");
    assert_eq!(normalize_path("   ".to_string()), "");
    assert_eq!(percent_decode("a%41"), Some("aA".to_string()));
    assert_eq!(percent_decode("abc"), None);
    assert_eq!(percent_decode("%ff"), None);
    assert_eq!(hex_value(b'f'), Some(15));
    assert_eq!(hex_value(b'G'), None);
    assert!(is_single_path_key("path"));
    assert!(is_path_list_key("paths"));
    assert!(!is_single_path_key("name"));
    let mut v = JsonValue::Object(vec![
        ("path".to_string(), JsonValue::Str("file:///tmp/a%20b".to_string())),
        ("name".to_string(), JsonValue::Str("file:///tmp/x".to_string())),
        ("paths".to_string(), JsonValue::Array(vec![JsonValue::Str("file:///c".to_string())])),
    ]);
    normalize_json_paths(&mut v);
    assert_eq!(v.get("path").and_then(|x| x.as_str()), Some("/tmp/a b"));
    assert_eq!(v.get("name").and_then(|x| x.as_str()), Some("file:///tmp/x"));
    let list = v.get("paths").and_then(|x| x.as_array()).unwrap();
    assert_eq!(list[0].as_str(), Some("/c"));
}

#[test]
fn favourites_and_pins() {
    let mut s = Settings::default();
    assert_eq!(s.view_mode, "list");
    assert_eq!(s.sidebar_width, 270);
    let fav = FavoriteItem { name: "Docs".to_string(), path: "file:///home/u/Docs".to_string(), is_dir: true };
    assert!(add_favorite(fav, &mut s));
    assert_eq!(s.favorites[0].path, "/home/u/Docs");
    let again = FavoriteItem { name: "D".to_string(), path: "/home/u/Docs".to_string(), is_dir: true };
    assert!(!add_favorite(again, &mut s));
    assert_eq!(s.favorites.len(), 1);
    remove_favorite("file:///home/u/Docs".to_string(), &mut s);
    assert!(s.favorites.is_empty());
    let pin = PinnedFolder { name: "P".to_string(), path: "/p".to_string(), is_dir: true, icon: Some("star".to_string()) };
    assert!(add_pinned_folder(pin, &mut s));
    assert_eq!(s.pinned_folders[0].icon.as_deref(), Some("star"));
    remove_pinned_folder("/q".to_string(), &mut s);
    assert_eq!(s.pinned_folders.len(), 1);
    remove_pinned_folder("/p".to_string(), &mut s);
    assert!(s.pinned_folders.is_empty());
}

#[test]
fn chooser_sessions() {
    let inactive = inactive_config();
    assert!(!inactive.active);
    let state = ChooserState::new(None);
    assert!(matches!(accept_chooser(vec!["/a".to_string()], &state), Err(e) if e == "Rover was not started as a chooser"));
    let session = ChooserSession::from_environment(
        Some("/tmp/r.json".to_string()),
        Some("save".to_string()),
        None,
        None,
        Some("1".to_string()),
        None,
        Some(String::new()),
        Some("a.txt".to_string()),
        Some("[\"/x\",\"/y\"]".to_string()),
    )
    .unwrap();
    assert!(matches!(session.config.mode, ChooserMode::Save));
    assert_eq!(session.config.title, "Select file");
    assert!(session.config.directory);
    assert!(!session.config.multiple);
    assert_eq!(session.config.current_folder, None);
    assert_eq!(session.config.current_name.as_deref(), Some("a.txt"));
    assert_eq!(session.config.files, vec!["/x".to_string(), "/y".to_string()]);
    assert!(ChooserSession::from_environment(None, Some("open".to_string()), None, None, None, None, None, None, None).is_none());
    let state = ChooserState::new(Some(session));
    assert!(get_chooser_config(&state).active);
    let reply = accept_chooser(vec!["/a".to_string()], &state).ok().unwrap();
    assert_eq!(reply.response_path, "/tmp/r.json");
    assert!(reply.response.accepted);
    let reply = cancel_chooser(&state).ok().unwrap();
    assert!(!reply.response.accepted && reply.response.paths.is_empty());
}

#[test]
fn drives_and_mounts() {
    assert!(parse_mount_options("rw,ro,noatime"));
    assert!(!parse_mount_options("rw,relatime"));
    assert!(is_user_media_mount("/run/media/u/USB"));
    assert!(should_skip_mount("/proc"));
    assert!(should_include_mount("/dev/sda1", "/", "ext4"));
    assert_eq!(base_block_device("/dev/sda1").as_deref(), Some("sda"));
    assert_eq!(decode_mount_field("/mnt/My\\040Disk"), "/mnt/My Disk");
    assert_eq!(drive_command_error("gio", "  oops \n", "1"), "gio: oops");
    assert_eq!(drive_command_error("gio", "", "exit status: 2"), "gio exited with exit status: 2");
    let mounts = "/dev/sda1 / ext4 rw 0 0\nproc /proc proc rw 0 0\n";
    let v = visible_mount_points(mounts);
    assert!(v.contains(&"/".to_string()));
    let list = sorted_drive_list(vec![drive("Root", "/", "/dev/sda1", false), drive("Usb", "/media/u", "/dev/sdb1", true)]);
    assert_eq!(list.drives.len(), 2);
    assert!(get_drive_info("/".to_string(), &list).is_ok());
    assert!(matches!(get_drive_info("/nope".to_string(), &list), Err(e) if e == "Drive not found: /nope"));
    assert!(matches!(eject_drive("/".to_string(), &list), Err(e) if e == "Root is not removable"));
    let plan = eject_drive("/media/u".to_string(), &list).ok().unwrap();
    assert_eq!(plan.commands.len(), 3);
    assert_eq!(plan.commands[0].program, "gio");
    assert_eq!(plan.commands[2].args, vec!["unmount".to_string(), "-b".to_string(), "/dev/sdb1".to_string()]);
    assert_eq!(plan.failure(&vec!["a".to_string(), "b".to_string()]), "Could not eject Usb: a; b");
}

#[test]
fn free_destination_picks_least_free_number() {
    let names = |v: &[&str]| v.iter().map(|s| s.to_string()).collect::<Vec<String>>();
    assert_eq!(free_destination("/s/a.txt", "/d", &names(&[])), Ok("/d/a.txt".to_string()));
    assert_eq!(free_destination("/s/a.txt", "/d", &names(&["b.txt"])), Ok("/d/a.txt".to_string()));
    assert_eq!(free_destination("/s/a.txt", "/d", &names(&["a.txt"])), Ok("/d/a (1).txt".to_string()));
    assert_eq!(
        free_destination("/s/a.txt", "/d", &names(&["a.txt", "a (1).txt"])),
        Ok("/d/a (2).txt".to_string())
    );
    assert_eq!(
        free_destination("/s/a.txt", "/d", &names(&["a (1).txt", "a.txt", "a (3).txt"])),
        Ok("/d/a (2).txt".to_string())
    );
    assert_eq!(free_destination("/s/dir", "/d", &names(&["dir"])), Ok("/d/dir (1)".to_string()));
    assert_eq!(free_destination("/", "/d", &names(&[])), Err("Invalid source path".to_string()));
}

#[test]
fn drives_from_mount_table() {
    let mounts = "/dev/sda2 / ext4 rw,relatime 0 0\n\
proc /proc proc rw 0 0\n\
/dev/sdb1 /media/u/Stick vfat ro,nosuid 0 0\n\
/dev/sda1 /boot/efi vfat rw 0 0\n\
/dev/sdc1 /mnt/Data\\040Disk ntfs3 rw 0 0\n\
/dev/sdd1 /mnt/empty ext4 rw 0 0\n";
    let probe = |total: u64, available: u64, name: &str, removable: bool| MountProbe {
        total_space: total,
        available_space: available,
        name: name.to_string(),
        removable_device: removable,
    };
    let probes = vec![
        probe(100, 40, "System", false),
        probe(16, 20, "Stick", false),
        probe(500, 100, "Data Disk", false),
        probe(0, 0, "Empty", false),
    ];
    let list = list_drives(mounts, &probes);
    let names: Vec<&str> = list.drives.iter().map(|d| d.name.as_str()).collect();
    assert_eq!(names, vec!["System", "Data Disk", "Stick"]);
    let root = &list.drives[0];
    assert_eq!(root.mount_point, "/");
    assert_eq!(root.used_space, 60);
    assert!(!root.is_readonly);
    let data = &list.drives[1];
    assert_eq!(data.mount_point, "/mnt/Data Disk");
    assert_eq!(data.fs_type, "ntfs3");
    let stick = &list.drives[2];
    assert_eq!(stick.used_space, 0);
    assert!(stick.is_readonly);
    assert!(stick.is_removable);
}

#[test]
fn steps_after_an_attempt() {
    assert_eq!(after_attempt(Attempt::Succeeded, true), NextStep::Done);
    assert_eq!(after_attempt(Attempt::PermissionDenied, true), NextStep::Elevate);
    assert_eq!(after_attempt(Attempt::PermissionDenied, false), NextStep::Elevate);
    assert_eq!(after_attempt(Attempt::Failed, true), NextStep::Fallback);
    assert_eq!(after_attempt(Attempt::Failed, false), NextStep::Fail);
}

#[test]
fn window_page_and_instances() {
    let args = |v: &[&str]| v.iter().map(|s| s.to_string()).collect::<Vec<String>>();
    match window_page(&args(&["rover", "--dev"]), "/w/index.html") {
        WindowPage::Dev { url, command } => {
            assert_eq!(url, "http://localhost:5173?fenestra=1#/");
            assert_eq!(command, "bun run dev");
        }
        WindowPage::Entry { .. } => panic!("expected the development server"),
    }
    match window_page(&args(&["rover"]), "/w/index.html") {
        WindowPage::Entry { url } => assert_eq!(url, "/w/index.html?fenestra=1#/"),
        WindowPage::Dev { .. } => panic!("expected the page"),
    }
    assert!(single_instance(false));
    assert!(!single_instance(true));
}

#[test]
fn joining_paths() {
    let cases = [("/a", "b"), ("/a/", "b"), ("/a", "/b"), ("", "b"), ("a", ""), ("/", "x/y"), ("a/b", "c/d/")];
    for (base, rest) in cases {
        let expected = std::path::Path::new(base).join(rest).to_string_lossy().to_string();
        assert_eq!(join(base, rest), expected, "{base} + {rest}");
    }
    assert_eq!(join("/a", "b"), "/a/b");
    assert_eq!(join("/a", "/b"), "/b");
}

#[test]
fn drive_mounted_twice_keeps_first_on_ties() {
    let mounts = "/dev/sdc1 /mnt/bb ext4 rw 0 0\n/dev/sdc1 /mnt/aa ext4 rw 0 0\n/dev/sdc1 /mnt/c ext4 rw 0 0\n";
    let probe = |name: &str| MountProbe { total_space: 10, available_space: 5, name: name.to_string(), removable_device: false };
    let list = list_drives(mounts, &vec![probe("B"), probe("A"), probe("C")]);
    assert_eq!(list.drives.len(), 1);
    assert_eq!(list.drives[0].mount_point, "/mnt/c");
    let mounts = "/dev/sdc1 /mnt/bb ext4 rw 0 0\n/dev/sdc1 /mnt/aa ext4 rw 0 0\n";
    let list = list_drives(mounts, &vec![probe("B"), probe("A")]);
    assert_eq!(list.drives[0].mount_point, "/mnt/bb");
}

#[test]
fn normalizing_twice_changes_nothing_more() {
    for p in ["  /home/u  ", "file:///home/u/a%20b", "file://localhost/etc", "%2Fetc%2Fx", "docs", "file://x", ""] {
        let once = normalize_path(p.to_string());
        if !once.contains('%') && once.trim() == once {
            assert_eq!(normalize_path(once.clone()), once, "{p}");
        }
    }
}

#[test]
fn planning_several_items() {
    let names = |v: &[&str]| v.iter().map(|s| s.to_string()).collect::<Vec<String>>();
    assert_eq!(
        plan_destinations(&names(&["/s/a.txt", "/t/b", "/u/a.txt"]), "/d", &names(&["a.txt"])),
        Ok(names(&["/d/a (1).txt", "/d/b", "/d/a (1).txt"]))
    );
    assert_eq!(plan_destinations(&names(&["/s/a.txt", "/"]), "/d", &names(&[])), Err("Invalid source path".to_string()));
    assert_eq!(plan_destinations(&names(&[]), "/d", &names(&[])), Ok(Vec::new()));
}

#[test]
fn path_names_match_std() {
    let cases = [
        "", "/", "//", ".", "..", "./", "a", "a/", "a//", "/a/b", "/a/b/", "a/./", "a/.", "./a", "a/..", "/a/..",
        "a/b/../c", ".bashrc", "/h/.bashrc", "a.tar.gz", "a.", "..a", ".a.b", "...", "dir/x.txt", "x.y/z", "a/.//.",
        "/.", "./.", "é.txt", "a b/c d.e",
    ];
    for p in cases {
        let path = std::path::Path::new(p);
        let std_name = path.file_name().map(|n| n.to_string_lossy().to_string());
        let std_ext = path.extension().map(|n| n.to_string_lossy().to_string());
        let std_stem = path.file_stem().map(|n| n.to_string_lossy().to_string());
        assert_eq!(file_name(p), std_name, "file_name {p:?}");
        assert_eq!(extension(p), std_ext, "extension {p:?}");
        assert_eq!(file_stem(p), std_stem, "file_stem {p:?}");
    }
}
