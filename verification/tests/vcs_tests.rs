use rover::json::JsonValue;
use rover::status_map::{str_lt, FileStatuses, VcsFileStatus};
use rover::text::parse_usize;
use rover::vcs::{
    absolute_path, detect, is_missing_program_error, missing_program_error, program_label, project_from_statuses,
    provider_root, relative_path, root_marker, save, status_snapshot, VcsJobs, VcsKind, VcsProject,
};
use rover::vcs::{ancestors, find_root, search_start, RootCandidate};
use rover::vcs_git;
use rover::vcs_pig;

fn statuses_of(pairs: &[(&str, VcsFileStatus)]) -> FileStatuses {
    let mut m = FileStatuses::new();
    for (p, s) in pairs {
        m.insert(p.to_string(), *s);
    }
    m
}

fn project(ahead: Option<usize>, behind: Option<usize>, changed: usize, conflicted: usize) -> VcsProject {
    VcsProject {
        root: "/r".to_string(),
        kind: VcsKind::Git,
        branch_or_workspace: None,
        remote_name: None,
        clean: changed == 0,
        ahead,
        behind,
        changed_count: changed,
        added_count: 0,
        deleted_count: 0,
        conflicted_count: conflicted,
    }
}

#[test]
fn status_map_keeps_path_order_and_last_write() {
    let mut m = FileStatuses::new();
    m.insert("b.txt".to_string(), VcsFileStatus::Added);
    m.insert("a.txt".to_string(), VcsFileStatus::Modified);
    m.insert("b.txt".to_string(), VcsFileStatus::Deleted);
    assert_eq!(m.len(), 2);
    assert_eq!(m.entry(0), ("a.txt", VcsFileStatus::Modified));
    assert_eq!(m.entry(1), ("b.txt", VcsFileStatus::Deleted));
    assert_eq!(m.get("b.txt"), Some(VcsFileStatus::Deleted));
    assert_eq!(m.get("c.txt"), None);
}

#[test]
fn string_order_is_byte_order() {
    assert!(str_lt("a", "b"));
    assert!(str_lt("a", "ab"));
    assert!(!str_lt("ab", "a"));
    assert!(!str_lt("a", "a"));
    assert!(str_lt("Z", "a"));
    assert!(str_lt("z", "é"));
}

#[test]
fn git_status_letters() {
    assert_eq!(vcs_git::file_status('?', '?'), VcsFileStatus::Untracked);
    assert_eq!(vcs_git::file_status('!', '!'), VcsFileStatus::Ignored);
    assert_eq!(vcs_git::file_status('U', 'M'), VcsFileStatus::Conflicted);
    assert_eq!(vcs_git::file_status('A', 'A'), VcsFileStatus::Conflicted);
    assert_eq!(vcs_git::file_status('D', 'A'), VcsFileStatus::Conflicted);
    assert_eq!(vcs_git::file_status(' ', 'D'), VcsFileStatus::Deleted);
    assert_eq!(vcs_git::file_status('R', ' '), VcsFileStatus::Renamed);
    assert_eq!(vcs_git::file_status('A', ' '), VcsFileStatus::Added);
    assert_eq!(vcs_git::file_status(' ', 'M'), VcsFileStatus::Modified);
    assert_eq!(vcs_git::file_status('T', ' '), VcsFileStatus::Modified);
    assert_eq!(vcs_git::file_status('C', ' '), VcsFileStatus::Modified);
}

#[test]
fn git_porcelain_output_is_parsed() {
    let out = b" M src/lib.rs\0R  new.rs\0old.rs\0?? notes.txt\0\0x\0A  src/a.rs\0".to_vec();
    let m = vcs_git::statuses(&out);
    assert_eq!(m.len(), 4);
    assert_eq!(m.get("src/lib.rs"), Some(VcsFileStatus::Modified));
    assert_eq!(m.get("new.rs"), Some(VcsFileStatus::Renamed));
    assert_eq!(m.get("old.rs"), None);
    assert_eq!(m.get("notes.txt"), Some(VcsFileStatus::Untracked));
    assert_eq!(m.get("src/a.rs"), Some(VcsFileStatus::Added));
    assert_eq!(m.entry(0).0, "new.rs");
}

#[test]
fn git_porcelain_empty_output() {
    let m = vcs_git::statuses(&Vec::new());
    assert_eq!(m.len(), 0);
}

#[test]
fn counts_by_status() {
    let m = statuses_of(&[
        ("a", VcsFileStatus::Added),
        ("b", VcsFileStatus::Untracked),
        ("c", VcsFileStatus::Deleted),
        ("d", VcsFileStatus::Conflicted),
        ("e", VcsFileStatus::Ignored),
        ("f", VcsFileStatus::Clean),
        ("g", VcsFileStatus::Modified),
    ]);
    let p = project_from_statuses("/repo", VcsKind::Git, Some("main".to_string()), None, Some(1), Some(0), &m);
    assert_eq!(p.root, "/repo");
    assert_eq!(p.changed_count, 5);
    assert_eq!(p.added_count, 2);
    assert_eq!(p.deleted_count, 1);
    assert_eq!(p.conflicted_count, 1);
    assert!(!p.clean);
    assert!(p.added_count + p.deleted_count + p.conflicted_count <= p.changed_count);
    let clean = project_from_statuses("/repo", VcsKind::Pig, None, None, None, None, &statuses_of(&[("x", VcsFileStatus::Ignored)]));
    assert!(clean.clean);
    assert_eq!(clean.changed_count, 0);
}

#[test]
fn decimal_parsing() {
    assert_eq!(parse_usize("42"), Some(42));
    assert_eq!(parse_usize("+7"), Some(7));
    assert_eq!(parse_usize("+"), None);
    assert_eq!(parse_usize(""), None);
    assert_eq!(parse_usize("-1"), None);
    assert_eq!(parse_usize("4a"), None);
    assert_eq!(parse_usize(" 4"), None);
    assert_eq!(parse_usize("18446744073709551615"), Some(usize::MAX));
    assert_eq!(parse_usize("18446744073709551616"), None);
}

#[test]
fn ahead_behind_counts() {
    assert_eq!(vcs_git::ahead_behind(Some("3\t5\n".to_string())), (Some(5), Some(3)));
    assert_eq!(vcs_git::ahead_behind(Some("2".to_string())), (None, Some(2)));
    assert_eq!(vcs_git::ahead_behind(Some("x 1".to_string())), (Some(1), None));
    assert_eq!(vcs_git::ahead_behind(None), (None, None));
}

#[test]
fn git_project_from_outputs() {
    let m = statuses_of(&[("a", VcsFileStatus::Modified)]);
    let p = vcs_git::project(
        "/repo",
        Some("  main\n".to_string()),
        Some("origin/main\n".to_string()),
        Some("0\t2\n".to_string()),
        &m,
    );
    assert_eq!(p.branch_or_workspace.as_deref(), Some("main"));
    assert_eq!(p.remote_name.as_deref(), Some("origin"));
    assert_eq!(p.ahead, Some(2));
    assert_eq!(p.behind, Some(0));
    assert_eq!(p.kind, VcsKind::Git);
    let q = vcs_git::project("/repo", Some("\n".to_string()), None, None, &m);
    assert_eq!(q.branch_or_workspace, None);
    assert_eq!(q.remote_name, None);
    assert_eq!(q.ahead, None);
    assert_eq!(vcs_git::remote_name("upstream"), "upstream");
    assert_eq!(vcs_git::trimmed_nonempty(Some(" x ".to_string())).as_deref(), Some("x"));
}

#[test]
fn sync_checks() {
    assert_eq!(vcs_git::sync_check(&project(Some(0), Some(0), 1, 1)), Err("Resolve conflicts before syncing".to_string()));
    assert_eq!(vcs_git::sync_check(&project(Some(0), Some(0), 1, 0)), Err("Commit or discard changes before syncing".to_string()));
    assert_eq!(vcs_git::sync_check(&project(Some(1), Some(1), 0, 0)), Err("Remote has changes. Pull first from a terminal.".to_string()));
    assert_eq!(vcs_git::sync_check(&project(Some(0), Some(2), 0, 0)), Ok(true));
    assert_eq!(vcs_git::sync_check(&project(Some(3), Some(0), 0, 0)), Ok(false));
    assert_eq!(vcs_git::sync_check(&project(None, None, 0, 0)), Ok(false));
    assert!(vcs_git::sync_should_push(&project(Some(1), Some(0), 0, 0), &project(Some(1), Some(0), 0, 0)));
    assert!(!vcs_git::sync_should_push(&project(Some(0), Some(2), 0, 0), &project(Some(0), Some(0), 0, 0)));
    assert!(vcs_git::sync_should_push(&project(None, None, 0, 0), &project(None, None, 0, 0)));
    assert!(vcs_git::sync_should_push(&project(Some(2), Some(0), 0, 0), &project(None, None, 0, 0)));
}

#[test]
fn git_diff_steps() {
    assert_eq!(vcs_git::diff_args(Some("a.rs"), true), vec!["diff", "--no-ext-diff", "HEAD", "--", "a.rs"]);
    assert_eq!(vcs_git::diff_args(None, false), vec!["diff", "--no-ext-diff", "--"]);
    assert!(vcs_git::diff_is_final(" x ", Some("a")));
    assert!(vcs_git::diff_is_final("", None));
    assert!(!vcs_git::diff_is_final("  \n", Some("a")));
    assert!(vcs_git::needs_new_file_diff(Some(VcsFileStatus::Untracked)));
    assert!(vcs_git::needs_new_file_diff(Some(VcsFileStatus::Added)));
    assert!(!vcs_git::needs_new_file_diff(Some(VcsFileStatus::Modified)));
    assert!(!vcs_git::needs_new_file_diff(None));
    assert_eq!(vcs_git::new_file_diff_args("n.txt"), vec!["diff", "--no-index", "--", "/dev/null", "n.txt"]);
}

#[test]
fn git_save_commands() {
    let c = vcs_git::save_commands("/repo", "msg", None);
    assert_eq!(c[0], vec!["add", "-A"]);
    assert_eq!(c[1], vec!["commit", "-m", "msg"]);
    let c = vcs_git::save_commands("/repo", "m", Some(vec!["/repo/a.rs".to_string(), "/repo".to_string(), "b\\c".to_string()]));
    assert_eq!(c[0], vec!["add", "--", "a.rs", "b/c"]);
}

#[test]
fn relative_paths() {
    assert_eq!(relative_path("/repo", "/repo/src/a.rs"), "src/a.rs");
    assert_eq!(relative_path("/repo", "/other/a.rs"), "/other/a.rs");
    assert_eq!(relative_path("/repo", "docs\\x.md"), "docs/x.md");
    assert_eq!(relative_path("/repo", "/repo"), "");
}

#[test]
fn paths_of_commands() {
    assert_eq!(absolute_path("  /home/u  ", Ok("/cwd".to_string())), Ok("/home/u".to_string()));
    assert_eq!(absolute_path("file:///tmp/a%20b", Ok("/cwd".to_string())), Ok("/tmp/a b".to_string()));
    assert_eq!(absolute_path("src", Ok("/cwd".to_string())), Ok("/cwd/src".to_string()));
    assert_eq!(absolute_path("   ", Ok("/cwd".to_string())), Err("VCS path is required".to_string()));
    assert_eq!(absolute_path("src", Err("gone".to_string())), Err("Could not resolve VCS path `src`: gone".to_string()));
    assert_eq!(
        provider_root(Ok("/r".to_string()), Err("No such file".to_string()), None),
        Err("VCS root no longer exists: /r: No such file".to_string())
    );
    assert_eq!(provider_root(Ok("/r".to_string()), Ok("/r".to_string()), None), Err("No versioned project found".to_string()));
    assert_eq!(
        provider_root(Ok("/r".to_string()), Ok("/r".to_string()), Some((VcsKind::Git, "/r".to_string()))),
        Ok((VcsKind::Git, "/r".to_string()))
    );
    assert_eq!(provider_root(Err("bad".to_string()), Ok("/r".to_string()), None), Err("bad".to_string()));
    assert_eq!(root_marker(false, true, true), Some(VcsKind::Pig));
    assert_eq!(root_marker(false, false, true), Some(VcsKind::Git));
    assert_eq!(root_marker(true, true, true), None);
    assert_eq!(root_marker(false, false, false), None);
}

#[test]
fn detect_and_missing_tools() {
    assert_eq!(program_label("git"), "Git");
    assert_eq!(program_label("pig"), "Pig");
    assert_eq!(program_label("hg"), "VCS tool");
    let e = missing_program_error("git");
    assert_eq!(e, "Git executable not found");
    assert!(is_missing_program_error(&e));
    assert!(!is_missing_program_error("fatal: not a git repository"));
    assert!(matches!(detect(None), Ok(None)));
    assert!(matches!(detect(Some(Err(e))), Ok(None)));
    assert!(matches!(detect(Some(Err("boom".to_string()))), Err(x) if x == "boom"));
    assert!(matches!(detect(Some(Ok(project(None, None, 0, 0)))), Ok(Some(_))));
}

#[test]
fn snapshot_takes_first_error() {
    assert!(matches!(status_snapshot(None), Ok(None)));
    let r = status_snapshot(Some((Err("s".to_string()), Err("p".to_string()))));
    assert!(matches!(r, Err(e) if e == "s"));
    let r = status_snapshot(Some((Ok(FileStatuses::new()), Err("p".to_string()))));
    assert!(matches!(r, Err(e) if e == "p"));
    let r = status_snapshot(Some((Ok(FileStatuses::new()), Ok(project(None, None, 0, 0)))));
    assert!(matches!(r, Ok(Some(s)) if s.project.root == "/r"));
}

#[test]
fn snapshot_counts_come_from_statuses() {
    let statuses = statuses_of(&[
        ("a", VcsFileStatus::Modified),
        ("b", VcsFileStatus::Untracked),
        ("c", VcsFileStatus::Deleted),
        ("d", VcsFileStatus::Conflicted),
        ("e", VcsFileStatus::Clean),
    ]);
    let stale = project(Some(1), Some(2), 0, 0);
    let snap = status_snapshot(Some((Ok(statuses), Ok(stale)))).unwrap().unwrap();
    assert_eq!(snap.project.changed_count, 4);
    assert_eq!(snap.project.added_count, 1);
    assert_eq!(snap.project.deleted_count, 1);
    assert_eq!(snap.project.conflicted_count, 1);
    assert!(!snap.project.clean);
    assert_eq!(snap.project.ahead, Some(1));
    assert_eq!(snap.project.behind, Some(2));
    assert_eq!(snap.statuses.len(), 5);
}

#[test]
fn root_search_from_candidates() {
    let c = |dir: &str, is_home: bool, has_pig: bool, has_git: bool| RootCandidate {
        dir: dir.to_string(),
        is_home,
        has_pig,
        has_git,
    };
    assert_eq!(find_root(&vec![c("/h/p/src", false, false, false), c("/h/p", false, false, true), c("/h", true, true, true)]), Some((VcsKind::Git, "/h/p".to_string())));
    assert_eq!(find_root(&vec![c("/h/p", false, true, true)]), Some((VcsKind::Pig, "/h/p".to_string())));
    assert_eq!(find_root(&vec![c("/h", true, true, true), c("/", false, false, false)]), None);
    assert_eq!(find_root(&vec![]), None);
}

#[test]
fn ancestors_nearest_first() {
    assert_eq!(ancestors("/a/b/c"), vec!["/a/b/c".to_string(), "/a/b".to_string(), "/a".to_string(), "/".to_string()]);
    assert_eq!(ancestors("/"), vec!["/".to_string()]);
}

#[test]
fn save_needs_message() {
    assert_eq!(save("  \n"), Err("Message is required".to_string()));
    assert_eq!(save(" fix "), Ok(()));
}

#[test]
fn status_jobs_hand_out_results_once() {
    let mut jobs = VcsJobs::new();
    let t = jobs.start_status();
    assert_eq!(t.id, "1");
    let t2 = jobs.start_status();
    assert_eq!(t2.id, "2");
    let u = jobs.status_result("1".to_string()).unwrap();
    assert!(!u.done && u.result.is_none() && u.error.is_none());
    jobs.finish("1".to_string(), Err("failed".to_string()));
    let u = jobs.status_result("1".to_string()).unwrap();
    assert!(u.done);
    assert_eq!(u.error.as_deref(), Some("failed"));
    assert!(matches!(jobs.status_result("1".to_string()), Err(e) if e == "VCS job was not found"));
    jobs.finish("2".to_string(), Ok(None));
    let u = jobs.status_result("2".to_string()).unwrap();
    assert!(u.done && u.result.is_none() && u.error.is_none());
    assert!(jobs.status_result("9".to_string()).is_err());
}

fn obj(members: Vec<(&str, JsonValue)>) -> JsonValue {
    JsonValue::Object(members.into_iter().map(|(k, v)| (k.to_string(), v)).collect())
}

fn s(v: &str) -> JsonValue {
    JsonValue::Str(v.to_string())
}

#[test]
fn pig_states() {
    assert_eq!(vcs_pig::file_status("added"), VcsFileStatus::Added);
    assert_eq!(vcs_pig::file_status("deleted"), VcsFileStatus::Deleted);
    assert_eq!(vcs_pig::file_status("conflicted"), VcsFileStatus::Conflicted);
    assert_eq!(vcs_pig::file_status("ignored"), VcsFileStatus::Ignored);
    assert_eq!(vcs_pig::file_status("renamed"), VcsFileStatus::Renamed);
    assert_eq!(vcs_pig::file_status("weird"), VcsFileStatus::Modified);
}

#[test]
fn pig_statuses_nested() {
    let flat = JsonValue::Array(vec![
        obj(vec![("path", s("a.txt")), ("state", s("added"))]),
        obj(vec![("path", s("b.txt"))]),
    ]);
    let m = vcs_pig::statuses(&flat);
    assert_eq!(m.len(), 1);
    assert_eq!(m.get("a.txt"), Some(VcsFileStatus::Added));
    let nested = obj(vec![(
        "repos",
        JsonValue::Array(vec![
            obj(vec![("path", s("sub")), ("files", JsonValue::Array(vec![obj(vec![("path", s("x")), ("state", s("deleted"))])]))]),
            obj(vec![("files", JsonValue::Array(vec![obj(vec![("path", s("y")), ("state", s("modified"))])]))]),
        ]),
    )]);
    let m = vcs_pig::statuses(&nested);
    assert_eq!(m.get("sub/x"), Some(VcsFileStatus::Deleted));
    assert_eq!(m.get("y"), Some(VcsFileStatus::Modified));
    assert_eq!(m.len(), 2);
}

#[test]
fn pig_diff_rendering() {
    let answer = obj(vec![(
        "files",
        JsonValue::Array(vec![
            obj(vec![("path", s("new.txt")), ("change", s("added")), ("diff", s("one\ntwo\n"))]),
            obj(vec![("path", s("gone.txt")), ("change", s("deleted")), ("diff", s("x"))]),
            obj(vec![("path", s("m.txt")), ("diff", s("@@ -1 +1 @@\n"))]),
        ]),
    )]);
    let all = vcs_pig::diff(&answer, None);
    assert_eq!(
        all,
        "diff --pig new.txt\nchange: added\n+one\n+two\n\ndiff --pig gone.txt\nchange: deleted\n-x\n\ndiff --pig m.txt\nchange: modified\n@@ -1 +1 @@\n"
    );
    let one = vcs_pig::diff(&answer, Some("m.txt"));
    assert_eq!(one, "diff --pig m.txt\nchange: modified\n@@ -1 +1 @@\n");
    let nested = obj(vec![("repos", JsonValue::Array(vec![obj(vec![("path", s("lib")), ("diff", answer)])]))]);
    let d = vcs_pig::diff(&nested, Some("lib/gone.txt"));
    assert_eq!(d, "diff --pig lib/gone.txt\nchange: deleted\n-x\n");
    let mut out = String::from("x");
    vcs_pig::push_prefixed(&mut out, '>', "a\r\nb");
    assert_eq!(out, "x>a\n>b\n");
}

#[test]
fn pig_remote_and_workspace() {
    let r = obj(vec![("configured", JsonValue::Bool(true)), ("tenant", s("acme")), ("project", s("site"))]);
    assert_eq!(vcs_pig::remote_name(Some(r)).as_deref(), Some("acme/site"));
    let r = obj(vec![("configured", JsonValue::Bool(true)), ("remote", s("https://pig"))]);
    assert_eq!(vcs_pig::remote_name(Some(r)).as_deref(), Some("https://pig"));
    let r = obj(vec![("configured", JsonValue::Bool(false)), ("remote", s("x"))]);
    assert_eq!(vcs_pig::remote_name(Some(r)), None);
    assert_eq!(vcs_pig::remote_name(None), None);
    assert_eq!(vcs_pig::workspace(Some(obj(vec![("current", s("dev"))]))).as_deref(), Some("dev"));
    assert_eq!(vcs_pig::workspace(Some(obj(vec![]))), None);
    let p = vcs_pig::project("/p", Some(obj(vec![("current", s("dev"))])), None, &FileStatuses::new());
    assert_eq!(p.kind, VcsKind::Pig);
    assert_eq!(p.branch_or_workspace.as_deref(), Some("dev"));
    assert_eq!(p.ahead, None);
    assert_eq!(
        vcs_pig::save_args("m", &vec!["a".to_string()]),
        vec!["--json", "save", "--message", "m", "a"]
    );
}

#[test]
fn search_starts_at_directory() {
    assert_eq!(search_start(Err("VCS path is required".to_string()), false), None);
    assert_eq!(search_start(Ok("/p/src".to_string()), false), Some("/p/src".to_string()));
    assert_eq!(search_start(Ok("/p/src/main.rs".to_string()), true), Some("/p/src".to_string()));
    assert_eq!(search_start(Ok("/".to_string()), true), None);
}

#[test]
fn pig_answers_parsed_from_text() {
    let m = vcs_pig::statuses_output(r#"[{"path":"a.txt","state":"added"},{"path":"b.txt"},{"path":"c","state":"deleted"}]"#).unwrap();
    assert_eq!(m.len(), 2);
    assert_eq!(m.get("a.txt"), Some(VcsFileStatus::Added));
    assert_eq!(m.get("c"), Some(VcsFileStatus::Deleted));
    let nested = vcs_pig::statuses_output(r#"{"repos":[{"path":"sub","files":[{"path":"x","state":"modified"}]}]}"#).unwrap();
    assert_eq!(nested.get("sub/x"), Some(VcsFileStatus::Modified));
    assert!(vcs_pig::statuses_output("not json").is_err());
    assert!(vcs_pig::diff_output("{", None).is_err());
    assert_eq!(vcs_pig::diff_output("[]", None), Ok(String::new()));
    let p = vcs_pig::project_output(
        "/p",
        Ok(r#"{"current":"dev"}"#.to_string()),
        Ok(r#"{"configured":true,"tenant":"acme","project":"site"}"#.to_string()),
        &FileStatuses::new(),
    );
    assert_eq!(p.branch_or_workspace.as_deref(), Some("dev"));
    assert_eq!(p.remote_name.as_deref(), Some("acme/site"));
    let q = vcs_pig::project_output("/p", Err("pig: not found".to_string()), Ok("oops".to_string()), &FileStatuses::new());
    assert_eq!(q.branch_or_workspace, None);
    assert_eq!(q.remote_name, None);
}

#[test]
fn json_documents_parse() {
    let v = rover::json::parse_json(r#"{"a":[1,true,null,"x"]}"#).unwrap();
    let JsonValue::Object(members) = v else { panic!("expected an object") };
    assert_eq!(members.len(), 1);
    assert_eq!(members[0].0, "a");
    let JsonValue::Array(items) = &members[0].1 else { panic!("expected an array") };
    assert!(matches!(&items[0], JsonValue::Number(n) if n == "1"));
    assert!(matches!(&items[1], JsonValue::Bool(true)));
    assert!(matches!(&items[2], JsonValue::Null));
    assert!(matches!(&items[3], JsonValue::Str(t) if t == "x"));
    assert!(rover::json::parse_json("[1,").is_err());
}

#[test]
fn git_diff_retries_without_head() {
    assert_eq!(vcs_git::after_head_diff(Some("a.txt"), Ok("d".to_string())), Ok("d".to_string()));
    assert_eq!(
        vcs_git::after_head_diff(Some("a.txt"), Err("no HEAD".to_string())),
        Err(vec!["diff".to_string(), "--no-ext-diff".to_string(), "--".to_string(), "a.txt".to_string()])
    );
}
