use rover::chooser::ChooserResponse;
use rover::file_manager_bus::{item_target, parent_path, service_path, uri_to_path, ItemKind};
use rover::portal::{
    bool_env, bytes_to_string, chooser_launch, chooser_outcome, default_accept, default_title,
    file_manager_service_file, portal_config, portal_file, portal_install_paths, portal_service_file,
    response_path, response_to_portal, shell_quote, xdg_home, ChooserOptions,
};

fn no_options() -> ChooserOptions {
    ChooserOptions {
        accept_label: None,
        directory: None,
        multiple: None,
        current_folder: None,
        current_file: None,
        current_name: None,
        files: None,
    }
}

#[test]
fn byte_string_options() {
    assert_eq!(bytes_to_string(b"/home/u\0".to_vec()).as_deref(), Some("/home/u"));
    assert_eq!(bytes_to_string(b"abc\0\0\0".to_vec()).as_deref(), Some("abc"));
    assert_eq!(bytes_to_string(b"\0".to_vec()), None);
    assert_eq!(bytes_to_string(vec![0xff, 0]), None);
    assert_eq!(bytes_to_string(b"a\0b".to_vec()).as_deref(), Some("a\0b"));
}

#[test]
fn chooser_defaults() {
    assert_eq!(default_title("save"), "Save file");
    assert_eq!(default_title("save_files"), "Select folder");
    assert_eq!(default_title("open"), "Select file");
    assert_eq!(default_accept("save"), "Save");
    assert_eq!(default_accept("save_files"), "Select");
    assert_eq!(default_accept("open"), "Open");
    assert_eq!(bool_env(true), "1");
    assert_eq!(bool_env(false), "0");
}

#[test]
fn chooser_launch_settings() {
    let l = chooser_launch("save_files", String::new(), no_options());
    assert_eq!(l.title, "Select folder");
    assert_eq!(l.accept_label, "Select");
    assert!(l.directory);
    assert!(!l.multiple);
    assert_eq!(l.current_folder, "");
    assert!(l.files.is_empty());
    let opts = ChooserOptions {
        accept_label: Some("Pick".to_string()),
        directory: Some(false),
        multiple: Some(true),
        current_folder: None,
        current_file: Some(b"/home/u/doc.txt\0".to_vec()),
        current_name: Some("doc.txt".to_string()),
        files: Some(vec![b"/a\0".to_vec(), vec![0xff], b"/b".to_vec()]),
    };
    let l = chooser_launch("open", "Choose".to_string(), opts);
    assert_eq!(l.title, "Choose");
    assert_eq!(l.accept_label, "Pick");
    assert!(!l.directory);
    assert!(l.multiple);
    assert_eq!(l.current_folder, "/home/u");
    assert_eq!(l.current_name, "doc.txt");
    assert_eq!(l.files, vec!["/a".to_string(), "/b".to_string()]);
}

#[test]
fn chooser_outcomes() {
    let accepted = ChooserResponse { accepted: true, paths: vec!["/a".to_string()] };
    assert!(matches!(chooser_outcome(Some(accepted), false, "exit status: 1"), Ok(r) if r.accepted));
    let cancelled = ChooserResponse { accepted: false, paths: Vec::new() };
    assert!(matches!(chooser_outcome(Some(cancelled), false, "exit status: 1"), Err(e) if e == "Rover chooser exited with status exit status: 1"));
    assert!(matches!(chooser_outcome(None, true, ""), Ok(r) if !r.accepted && r.paths.is_empty()));
}

#[test]
fn portal_answers() {
    let (code, results) = response_to_portal(ChooserResponse { accepted: false, paths: vec!["/a".to_string()] });
    assert_eq!(code, 1);
    assert!(results.is_none());
    let (code, results) = response_to_portal(ChooserResponse {
        accepted: true,
        paths: vec!["/home/u/a b.txt".to_string(), "relative".to_string()],
    });
    assert_eq!(code, 0);
    let results = results.unwrap();
    assert_eq!(results.uris, vec!["file:///home/u/a%20b.txt".to_string()]);
    assert!(!results.writable);
}

#[test]
fn response_files_and_quoting() {
    assert_eq!(
        response_path("/tmp", 42, 7, "/org/freedesktop/portal/desktop/request/1_2/x"),
        "/tmp/rover-chooser-42-7-_org_freedesktop_portal_desktop_request_1_2_x.json"
    );
    assert_eq!(shell_quote("plain"), "'plain'");
    assert_eq!(shell_quote("it's"), "'it'\\''s'");
    assert_eq!(
        portal_service_file("/usr/bin/rover"),
        "[D-BUS Service]\nName=org.freedesktop.impl.portal.desktop.rover\nExec='/usr/bin/rover' --portal-backend\n"
    );
    assert_eq!(
        file_manager_service_file("/opt/my app/rover"),
        "[D-BUS Service]\nName=org.freedesktop.FileManager1\nExec='/opt/my app/rover' --file-manager-bus\n"
    );
    assert!(portal_file().starts_with("[portal]\nDBusName=org.freedesktop.impl.portal.desktop.rover\n"));
}

#[test]
fn portal_preferences() {
    assert_eq!(portal_config(""), "[preferred]\norg.freedesktop.impl.portal.FileChooser=rover;*\n");
    assert_eq!(
        portal_config("[preferred]\ndefault=gtk\n"),
        "[preferred]\norg.freedesktop.impl.portal.FileChooser=rover;*\n\ndefault=gtk\n"
    );
    assert_eq!(
        portal_config("[preferred]\n  org.freedesktop.impl.portal.FileChooser=gtk\ndefault=gtk"),
        "[preferred]\norg.freedesktop.impl.portal.FileChooser=rover;*\ndefault=gtk\n"
    );
    assert_eq!(portal_config("x=1\n"), "[preferred]\norg.freedesktop.impl.portal.FileChooser=rover;*\n");
}

#[test]
fn portal_config_ignores_commented_chooser() {
    assert_eq!(
        portal_config("[preferred]\n# org.freedesktop.impl.portal.FileChooser=gtk\n"),
        "[preferred]\norg.freedesktop.impl.portal.FileChooser=rover;*\n\n# org.freedesktop.impl.portal.FileChooser=gtk\n"
    );
    assert_eq!(
        portal_config("# org.freedesktop.impl.portal.FileChooser=gtk\n"),
        "[preferred]\norg.freedesktop.impl.portal.FileChooser=rover;*\n"
    );
}

#[test]
fn portal_config_needs_a_section_header() {
    assert_eq!(
        portal_config("# see [preferred]\n[preferred]\ndefault=gtk\n"),
        "# see [preferred]\n[preferred]\norg.freedesktop.impl.portal.FileChooser=rover;*\n\ndefault=gtk\n"
    );
    assert_eq!(
        portal_config("# [preferred]\n"),
        "# [preferred]\norg.freedesktop.impl.portal.FileChooser=rover;*\n\n"
    );
    assert_eq!(
        portal_config("x=1 [preferred] y\n"),
        "x=1 [preferred]\norg.freedesktop.impl.portal.FileChooser=rover;*\n y\n"
    );
}

#[test]
fn base_directories() {
    assert_eq!(xdg_home(Some("/x".to_string()), Some("/h".to_string()), ".local/share"), "/x");
    assert_eq!(xdg_home(None, Some("/h".to_string()), ".config"), "/h/.config");
    assert_eq!(xdg_home(None, None, ".config"), ".");
    let (a, b, c) = portal_install_paths("/d", "/c");
    assert_eq!(a, "/d/dbus-1/services/org.freedesktop.impl.portal.desktop.rover.service");
    assert_eq!(b, "/d/xdg-desktop-portal/portals/rover.portal");
    assert_eq!(c, "/c/xdg-desktop-portal/portals.conf");
    assert_eq!(service_path("/d"), "/d/dbus-1/services/org.freedesktop.FileManager1.service");
}

#[test]
fn file_manager_requests() {
    assert_eq!(uri_to_path("file:///home/u/My%20Docs").as_deref(), Some("/home/u/My Docs"));
    assert_eq!(uri_to_path("https://example.com/a"), None);
    assert_eq!(uri_to_path("not a uri"), None);
    assert_eq!(parent_path("/home/u/a.txt"), "/home/u");
    assert_eq!(parent_path("/"), "/");
    assert_eq!(item_target("/home/u/a.txt".to_string(), ItemKind::Auto, false), "/home/u");
    assert_eq!(item_target("/home/u".to_string(), ItemKind::Auto, true), "/home/u");
    assert_eq!(item_target("/home/u/a.txt".to_string(), ItemKind::Folder, false), "/home/u/a.txt");
}
