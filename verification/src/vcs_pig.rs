//! What Rover reads from Pig, whose commands answer in JSON: the status of
//! each file, possibly per nested repository, the diff of one file or all,
//! the current workspace and the remote.
use vstd::prelude::*;
use crate::json::{JsonValue, get_spec, json_document, member, parse_json, str_of};
use crate::status_map::{FileStatuses, VcsFileStatus, insert_all};
use crate::vcs::{VcsKind, VcsProject, project_from_statuses, project_spec};
use crate::vcs_git::views_of;
use crate::operations_queue::opt_chars;
use crate::text::{chars_list_view, chars_of, concat, lines, lines_of, push_char, str_eq, string_of};

verus! {

broadcast use vstd::string::group_string_axioms;

/// The status Pig's `state` names.
pub open spec fn pig_status_spec(state: Seq<char>) -> VcsFileStatus {
    if state == "added"@ {
        VcsFileStatus::Added
    } else if state == "deleted"@ {
        VcsFileStatus::Deleted
    } else if state == "conflicted"@ {
        VcsFileStatus::Conflicted
    } else if state == "ignored"@ {
        VcsFileStatus::Ignored
    } else if state == "renamed"@ {
        VcsFileStatus::Renamed
    } else {
        VcsFileStatus::Modified
    }
}

/// Each of Pig's state words names its status, and any other word counts as
/// modified; Pig never reports a file clean or untracked.
pub proof fn lemma_pig_state_words(state: Seq<char>)
    ensures
        (pig_status_spec(state) == VcsFileStatus::Added) <==> state == "added"@,
        (pig_status_spec(state) == VcsFileStatus::Deleted) <==> state == "deleted"@,
        (pig_status_spec(state) == VcsFileStatus::Conflicted) <==> state == "conflicted"@,
        (pig_status_spec(state) == VcsFileStatus::Ignored) <==> state == "ignored"@,
        (pig_status_spec(state) == VcsFileStatus::Renamed) <==> state == "renamed"@,
        pig_status_spec(state) != VcsFileStatus::Clean,
        pig_status_spec(state) != VcsFileStatus::Untracked,
{
    reveal_strlit("added");
    reveal_strlit("deleted");
    reveal_strlit("conflicted");
    reveal_strlit("ignored");
    reveal_strlit("renamed");
    assert("added"@ != "deleted"@ && "added"@ != "conflicted"@ && "added"@ != "ignored"@ && "added"@ != "renamed"@) by {
        assert("added"@[0] != "deleted"@[0]);
        assert("added"@[0] != "conflicted"@[0]);
        assert("added"@[0] != "ignored"@[0]);
        assert("added"@[0] != "renamed"@[0]);
    }
    assert("deleted"@ != "conflicted"@ && "deleted"@ != "ignored"@ && "deleted"@ != "renamed"@) by {
        assert("deleted"@[0] != "conflicted"@[0]);
        assert("deleted"@[0] != "ignored"@[0]);
        assert("deleted"@[0] != "renamed"@[0]);
    }
    assert("conflicted"@ != "ignored"@ && "conflicted"@ != "renamed"@) by {
        assert("conflicted"@[0] != "ignored"@[0]);
        assert("conflicted"@[0] != "renamed"@[0]);
    }
    assert("ignored"@ != "renamed"@) by {
        assert("ignored"@[0] != "renamed"@[0]);
    }
}

/// The status Pig's `state` names; an unknown state counts as modified.
pub fn file_status(state: &str) -> (r: VcsFileStatus)
    ensures
        r == pig_status_spec(state@),
{
    if str_eq(state, "added") {
        VcsFileStatus::Added
    } else if str_eq(state, "deleted") {
        VcsFileStatus::Deleted
    } else if str_eq(state, "conflicted") {
        VcsFileStatus::Conflicted
    } else if str_eq(state, "ignored") {
        VcsFileStatus::Ignored
    } else if str_eq(state, "renamed") {
        VcsFileStatus::Renamed
    } else {
        VcsFileStatus::Modified
    }
}

/// `path` under the repository `prefix`, where there is one.
pub open spec fn prefixed_path(prefix: Option<Seq<char>>, path: Seq<char>) -> Seq<char> {
    match prefix {
        Some(p) => p + "/"@ + path,
        None => path,
    }
}

fn prefixed(prefix: Option<&str>, path: &str) -> (r: String)
    ensures
        r@ == prefixed_path(
            match prefix {
                Some(p) => Some(p@),
                None => None,
            },
            path@,
        ),
{
    match prefix {
        Some(p) => {
            let a = concat(p, "/");
            concat(a.as_str(), path)
        },
        None => path.to_string(),
    }
}

/// The record of one status entry: its path under `prefix` and its state,
/// where it has both as strings.
pub open spec fn entry_record(e: JsonValue, prefix: Option<Seq<char>>) -> Seq<(Seq<char>, VcsFileStatus)> {
    match (str_of(get_spec(e, "path"@)), str_of(get_spec(e, "state"@))) {
        (Some(path), Some(state)) => seq![(prefixed_path(prefix, path), pig_status_spec(state))],
        _ => Seq::empty(),
    }
}

/// The records of the status entries `es`, in order.
pub open spec fn entry_records(es: Seq<JsonValue>, prefix: Option<Seq<char>>) -> Seq<(Seq<char>, VcsFileStatus)>
    decreases es.len(),
{
    if es.len() == 0 {
        Seq::empty()
    } else {
        entry_records(es.drop_last(), prefix) + entry_record(es.last(), prefix)
    }
}

/// The status records in Pig's status answer `v`: an array of entries, or an
/// object whose `repos` each hold their `files` under their `path`.
pub open spec fn pig_records(v: JsonValue, prefix: Option<Seq<char>>) -> Seq<(Seq<char>, VcsFileStatus)>
    decreases v, 1int, 0int,
{
    match v {
        JsonValue::Array(es) => entry_records(es@, prefix),
        _ => match get_spec(v, "repos"@) {
            Some(JsonValue::Array(repos)) => repo_records(v, repos@, repos@.len() as int),
            _ => Seq::empty(),
        },
    }
}

/// The status records of the first `n` repositories of `repos`, which `v`
/// holds.
pub open spec fn repo_records(v: JsonValue, repos: Seq<JsonValue>, n: int) -> Seq<(Seq<char>, VcsFileStatus)>
    decreases v, 0int, n,
{
    if n <= 0 || n > repos.len() {
        Seq::empty()
    } else {
        let repo = repos[n - 1];
        let earlier = repo_records(v, repos, n - 1);
        match get_spec(repo, "files"@) {
            Some(files) => if decreases_to!(v => files) {
                earlier + pig_records(files, str_of(get_spec(repo, "path"@)))
            } else {
                earlier
            },
            None => earlier,
        }
    }
}

/// The statuses in Pig's status answer `v`, a later record for a path
/// replacing an earlier one.
pub open spec fn pig_statuses(v: JsonValue) -> Map<Seq<char>, VcsFileStatus> {
    insert_all(Map::empty(), pig_records(v, None))
}

proof fn lemma_insert_all_concat(m: Map<Seq<char>, VcsFileStatus>, a: Seq<(Seq<char>, VcsFileStatus)>, b: Seq<(Seq<char>, VcsFileStatus)>)
    ensures
        insert_all(m, a + b) == insert_all(insert_all(m, a), b),
    decreases b.len(),
{
    if b.len() == 0 {
        assert(a + b =~= a);
    } else {
        assert((a + b).drop_last() =~= a + b.drop_last());
        assert((a + b).last() == b.last());
        lemma_insert_all_concat(m, a, b.drop_last());
    }
}

proof fn lemma_member_is_field(m: Seq<(String, JsonValue)>, key: Seq<char>)
    ensures
        member(m, key) matches Some(x) ==> exists|k: int| 0 <= k < m.len() && (#[trigger] m[k]).1 == x,
    decreases m.len(),
{
    if m.len() > 0 && m[0].0@ != key {
        lemma_member_is_field(m.drop_first(), key);
        if member(m, key) is Some {
            let k = choose|k: int| 0 <= k < m.drop_first().len() && (#[trigger] m.drop_first()[k]).1 == member(m, key)->0;
            assert(m[k + 1] == m.drop_first()[k]);
        }
    }
}

fn opt_str(v: Option<&JsonValue>) -> (r: Option<&str>)
    ensures
        match v {
            Some(x) => match r {
                Some(s) => str_of(Some(*x)) == Some(s@),
                None => str_of(Some(*x)) is None,
            },
            None => r is None,
        },
{
    match v {
        Some(x) => x.as_str(),
        None => None,
    }
}

/// Inserts the statuses that Pig's status answer `value` reports under the
/// repository `prefix`.
pub fn collect_statuses(value: &JsonValue, prefix: Option<&str>, statuses: &mut FileStatuses)
    requires
        old(statuses).wf(),
    ensures
        final(statuses).wf(),
        final(statuses).map() == insert_all(
            old(statuses).map(),
            pig_records(
                *value,
                match prefix {
                    Some(p) => Some(p@),
                    None => None,
                },
            ),
        ),
    decreases value,
{
    let ghost pre = match prefix {
        Some(p) => Some(p@),
        None => None,
    };
    match value {
        JsonValue::Array(entries) => {
            let ghost es = entries@;
            let ghost start = statuses.map();
            let mut i: usize = 0;
            assert(es.take(0) =~= Seq::<JsonValue>::empty());
            while i < entries.len()
                invariant
                    es == entries@,
                    i <= es.len(),
                    statuses.wf(),
                    statuses.map() == insert_all(start, entry_records(es.take(i as int), pre)),
                    pre == (match prefix {
                        Some(p) => Some(p@),
                        None => None,
                    }),
                decreases es.len() - i,
            {
                let entry = &entries[i];
                let path = opt_str(entry.get("path"));
                let state = opt_str(entry.get("state"));
                let ghost before = statuses.map();
                assert(es.take(i + 1).drop_last() =~= es.take(i as int));
                assert(es.take(i + 1).last() == es[i as int]);
                proof {
                    lemma_insert_all_concat(start, entry_records(es.take(i as int), pre), entry_record(es[i as int], pre));
                }
                match (path, state) {
                    (Some(p), Some(s)) => {
                        let full = prefixed(prefix, p);
                        let st = file_status(s);
                        statuses.insert(full, st);
                        assert(insert_all(before, entry_record(es[i as int], pre)) =~= before.insert(
                            prefixed_path(pre, p@),
                            st,
                        )) by {
                            let e = entry_record(es[i as int], pre);
                            assert(str_of(get_spec(es[i as int], "path"@)) == Some(p@));
                            assert(str_of(get_spec(es[i as int], "state"@)) == Some(s@));
                            assert(e =~= seq![(prefixed_path(pre, p@), st)]);
                            assert(e.drop_last() =~= Seq::<(Seq<char>, VcsFileStatus)>::empty());
                            assert(insert_all(before, e.drop_last()) == before);
                        }
                    },
                    _ => {
                        assert(entry_record(es[i as int], pre) =~= Seq::<(Seq<char>, VcsFileStatus)>::empty());
                        assert(insert_all(before, Seq::<(Seq<char>, VcsFileStatus)>::empty()) == before);
                    },
                }
                i = i + 1;
            }
            assert(es.take(es.len() as int) =~= es);
        },
        _ => {
            let repos_value = value.get("repos");
            match repos_value {
                Some(JsonValue::Array(repos)) => {
                    let ghost rs = repos@;
                    let ghost start = statuses.map();
                    proof {
                        if *value is Object {
                            lemma_member_is_field(value->Object_0@, "repos"@);
                        }
                    }
                    let mut i: usize = 0;
                    while i < repos.len()
                        invariant
                            rs == repos@,
                            i <= rs.len(),
                            get_spec(*value, "repos"@) == Some(JsonValue::Array(*repos)),
                            forall|k: int| 0 <= k < rs.len() ==> decreases_to!(*value => #[trigger] rs[k]),
                            statuses.wf(),
                            statuses.map() == insert_all(start, repo_records(*value, rs, i as int)),
                        decreases rs.len() - i,
                    {
                        let repo = &repos[i];
                        let repo_prefix = opt_str(repo.get("path"));
                        let files = repo.get("files");
                        let ghost before = statuses.map();
                        match files {
                            Some(f) => {
                                proof {
                                    if *repo is Object {
                                        let rms = repo->Object_0@;
                                        lemma_member_is_field(rms, "files"@);
                                        let k = choose|k: int| 0 <= k < rms.len() && (#[trigger] rms[k]).1 == *f;
                                        assert(decreases_to!(*repo => rms[k].1));
                                    }
                                    assert(decreases_to!(*value => *f));
                                    lemma_insert_all_concat(
                                        start,
                                        repo_records(*value, rs, i as int),
                                        pig_records(*f, str_of(get_spec(*repo, "path"@))),
                                    );
                                }
                                collect_statuses(f, repo_prefix, statuses);
                            },
                            None => {},
                        }
                        i = i + 1;
                    }
                },
                _ => {},
            }
        },
    }
}

/// The status of each file that Pig's status answer `json` reports.
pub fn statuses(json: &JsonValue) -> (r: FileStatuses)
    ensures
        r.wf(),
        r.map() == pig_statuses(*json),
{
    let mut r = FileStatuses::new();
    collect_statuses(json, None, &mut r);
    r
}

/// `diff` with each line written after `prefix` and ended by a newline.
pub open spec fn prefixed_lines(prefix: char, ls: Seq<Seq<char>>) -> Seq<char>
    decreases ls.len(),
{
    if ls.len() == 0 {
        Seq::empty()
    } else {
        prefixed_lines(prefix, ls.drop_last()) + seq![prefix] + ls.last() + seq!['\n']
    }
}

/// Appends each line of `diff` to `output` after `prefix`, each ended by a
/// newline.
pub fn push_prefixed(output: &mut String, prefix: char, diff: &str)
    ensures
        final(output)@ == old(output)@ + prefixed_lines(prefix, lines(diff@)),
{
    let ls = lines_of(&chars_of(diff));
    let ghost l = chars_list_view(ls@);
    let ghost start = output@;
    let mut i: usize = 0;
    assert(l.take(0) =~= Seq::<Seq<char>>::empty());
    assert(start + prefixed_lines(prefix, Seq::<Seq<char>>::empty()) =~= start);
    while i < ls.len()
        invariant
            i <= ls.len(),
            l == chars_list_view(ls@),
            l == lines(diff@),
            output@ == start + prefixed_lines(prefix, l.take(i as int)),
            start == old(output)@,
        decreases ls.len() - i,
    {
        push_char(output, prefix);
        let line = string_of(&ls[i]);
        output.append(line.as_str());
        push_char(output, '\n');
        assert(l.take(i + 1).drop_last() =~= l.take(i as int));
        assert(l.take(i + 1).last() == l[i as int]);
        assert(output@ =~= start + prefixed_lines(prefix, l.take(i + 1)));
        i = i + 1;
    }
    assert(l.take(ls.len() as int) =~= l);
}

/// The text of `item`'s diff after what came before, `out`: a blank line
/// between files, a header naming the file and its change, then the diff,
/// each line marked `+` for an added file and `-` for a deleted one.
pub open spec fn rendered(out: Seq<char>, path: Seq<char>, item: JsonValue) -> Seq<char> {
    let change = match str_of(get_spec(item, "change"@)) {
        Some(c) => c,
        None => "modified"@,
    };
    let diff = match str_of(get_spec(item, "diff"@)) {
        Some(d) => d,
        None => Seq::empty(),
    };
    let sep = if out.len() > 0 { out.push('\n') } else { out };
    let body = if change == "added"@ {
        prefixed_lines('+', lines(diff))
    } else if change == "deleted"@ {
        prefixed_lines('-', lines(diff))
    } else {
        diff
    };
    sep + "diff --pig "@ + path + "\n"@ + "change: "@ + change + "\n"@ + body
}

/// Appends the diff of `item`, the file `path`, to `output`.
pub fn render_file_diff(path: &str, item: &JsonValue, output: &mut String)
    ensures
        final(output)@ == rendered(old(output)@, path@, *item),
{
    let change = match opt_str(item.get("change")) {
        Some(c) => c,
        None => "modified",
    };
    let diff = match opt_str(item.get("diff")) {
        Some(d) => d,
        None => "",
    };
    proof {
        reveal_strlit("");
    }
    if chars_of(output.as_str()).len() > 0 {
        push_char(output, '\n');
    }
    output.append("diff --pig ");
    output.append(path);
    output.append("\n");
    output.append("change: ");
    output.append(change);
    output.append("\n");
    if str_eq(change, "added") {
        push_prefixed(output, '+', diff);
    } else if str_eq(change, "deleted") {
        push_prefixed(output, '-', diff);
    } else {
        output.append(diff);
    }
}

/// The file of an item, where the diff is restricted to one.
pub open spec fn wanted(file: Option<Seq<char>>, path: Seq<char>) -> bool {
    match file {
        Some(f) => f == path,
        None => true,
    }
}

/// `out` after the diffs of the first `n` items of `items` that have a path
/// and that `file` wants.
pub open spec fn items_diff(out: Seq<char>, items: Seq<JsonValue>, n: int, file: Option<Seq<char>>, prefix: Option<Seq<char>>) -> Seq<char>
    decreases n,
{
    if n <= 0 || n > items.len() {
        out
    } else {
        let before = items_diff(out, items, n - 1, file, prefix);
        let item = items[n - 1];
        match str_of(get_spec(item, "path"@)) {
            Some(p) => if wanted(file, prefixed_path(prefix, p)) {
                rendered(before, prefixed_path(prefix, p), item)
            } else {
                before
            },
            None => before,
        }
    }
}

/// `out` after the diffs in Pig's diff answer `v`: its `files`, or those of
/// each of its `repos` under the repository's `path`.
pub open spec fn pig_diff(out: Seq<char>, v: JsonValue, file: Option<Seq<char>>, prefix: Option<Seq<char>>) -> Seq<char>
    decreases v, 1int, 0int,
{
    match get_spec(v, "files"@) {
        Some(JsonValue::Array(items)) => items_diff(out, items@, items@.len() as int, file, prefix),
        _ => match get_spec(v, "repos"@) {
            Some(JsonValue::Array(repos)) => repos_diff(out, v, repos@, repos@.len() as int, file),
            _ => out,
        },
    }
}

/// `out` after the diffs of the first `n` repositories of `repos`, which `v`
/// holds.
pub open spec fn repos_diff(out: Seq<char>, v: JsonValue, repos: Seq<JsonValue>, n: int, file: Option<Seq<char>>) -> Seq<char>
    decreases v, 0int, n,
{
    if n <= 0 || n > repos.len() {
        out
    } else {
        let before = repos_diff(out, v, repos, n - 1, file);
        let repo = repos[n - 1];
        let d = match get_spec(repo, "diff"@) {
            Some(d) => d,
            None => repo,
        };
        if decreases_to!(v => d) {
            pig_diff(before, d, file, str_of(get_spec(repo, "path"@)))
        } else {
            before
        }
    }
}

/// Appends to `output` the diffs in Pig's diff answer `value` under the
/// repository `prefix`, of the file `file` only where one is named.
pub fn collect_diff(value: &JsonValue, file: Option<&str>, prefix: Option<&str>, output: &mut String)
    ensures
        final(output)@ == pig_diff(
            old(output)@,
            *value,
            match file {
                Some(f) => Some(f@),
                None => None,
            },
            match prefix {
                Some(p) => Some(p@),
                None => None,
            },
        ),
    decreases value,
{
    let ghost fl = match file {
        Some(f) => Some(f@),
        None => None,
    };
    let ghost pre = match prefix {
        Some(p) => Some(p@),
        None => None,
    };
    let files = match value.get("files") {
        Some(JsonValue::Array(items)) => Some(items),
        _ => None,
    };
    match files {
        Some(items) => {
            let ghost start = output@;
            let mut i: usize = 0;
            while i < items.len()
                invariant
                    i <= items.len(),
                    output@ == items_diff(start, items@, i as int, fl, pre),
                    fl == (match file {
                        Some(f) => Some(f@),
                        None => None,
                    }),
                    pre == (match prefix {
                        Some(p) => Some(p@),
                        None => None,
                    }),
                decreases items.len() - i,
            {
                let item = &items[i];
                match opt_str(item.get("path")) {
                    Some(p) => {
                        let path = prefixed(prefix, p);
                        let keep = match file {
                            Some(f) => str_eq(f, path.as_str()),
                            None => true,
                        };
                        if keep {
                            render_file_diff(path.as_str(), item, output);
                        }
                    },
                    None => {},
                }
                i = i + 1;
            }
        },
        None => {
            match value.get("repos") {
                Some(JsonValue::Array(repos)) => {
                    let ghost rs = repos@;
                    let ghost start = output@;
                    proof {
                        if *value is Object {
                            lemma_member_is_field(value->Object_0@, "repos"@);
                        }
                    }
                    let mut i: usize = 0;
                    while i < repos.len()
                        invariant
                            rs == repos@,
                            i <= rs.len(),
                            forall|k: int| 0 <= k < rs.len() ==> decreases_to!(*value => #[trigger] rs[k]),
                            output@ == repos_diff(start, *value, rs, i as int, fl),
                            fl == (match file {
                                Some(f) => Some(f@),
                                None => None,
                            }),
                        decreases rs.len() - i,
                    {
                        let repo = &repos[i];
                        let repo_prefix = opt_str(repo.get("path"));
                        let d = match repo.get("diff") {
                            Some(d) => d,
                            None => repo,
                        };
                        proof {
                            if *repo is Object {
                                let rms = repo->Object_0@;
                                lemma_member_is_field(rms, "diff"@);
                                if get_spec(*repo, "diff"@) is Some {
                                    let k = choose|k: int| 0 <= k < rms.len() && (#[trigger] rms[k]).1 == *d;
                                    assert(decreases_to!(*repo => rms[k].1));
                                }
                            }
                            assert(decreases_to!(*value => *d));
                        }
                        collect_diff(d, file, repo_prefix, output);
                        i = i + 1;
                    }
                },
                _ => {},
            }
        },
    }
}

/// The text of Pig's diff answer `json`, for the file `file` (relative to the
/// project) or all files.
pub fn diff(json: &JsonValue, file: Option<&str>) -> (r: String)
    ensures
        r@ == pig_diff(
            Seq::empty(),
            *json,
            match file {
                Some(f) => Some(f@),
                None => None,
            },
            None,
        ),
{
    let mut out = String::new();
    collect_diff(json, file, None, &mut out);
    out
}

/// The current workspace in the answer of `pig --json work status`, where the
/// command answered.
pub fn workspace(status: Option<JsonValue>) -> (r: Option<String>)
    ensures
        opt_chars(r) == match status {
            Some(v) => str_of(get_spec(v, "current"@)),
            None => None,
        },
{
    match status {
        Some(v) => match opt_str(v.get("current")) {
            Some(s) => Some(s.to_string()),
            None => None,
        },
        None => None,
    }
}

/// The remote that the answer of `pig --json remote show` names: none unless
/// it is configured; `tenant/project` where both are given, else `remote`.
pub open spec fn pig_remote_spec(v: JsonValue) -> Option<Seq<char>> {
    let configured = match get_spec(v, "configured"@) {
        Some(JsonValue::Bool(b)) => b,
        _ => false,
    };
    if !configured {
        None
    } else {
        match (str_of(get_spec(v, "tenant"@)), str_of(get_spec(v, "project"@))) {
            (Some(t), Some(p)) => Some(t + "/"@ + p),
            _ => str_of(get_spec(v, "remote"@)),
        }
    }
}

/// The remote of the project, from the answer of `pig --json remote show`
/// where the command answered.
pub fn remote_name(remote: Option<JsonValue>) -> (r: Option<String>)
    ensures
        opt_chars(r) == match remote {
            Some(v) => pig_remote_spec(v),
            None => None,
        },
{
    let v = match remote {
        Some(v) => v,
        None => return None,
    };
    let configured = match v.get("configured") {
        Some(c) => match c.as_bool() {
            Some(b) => b,
            None => false,
        },
        None => false,
    };
    if !configured {
        return None;
    }
    match (opt_str(v.get("tenant")), opt_str(v.get("project"))) {
        (Some(t), Some(p)) => {
            let a = concat(t, "/");
            Some(concat(a.as_str(), p))
        },
        _ => match opt_str(v.get("remote")) {
            Some(s) => Some(s.to_string()),
            None => None,
        },
    }
}

/// The Pig project at `root`, with its workspace and remote and no ahead or
/// behind counts.
pub fn project(root: &str, work_status: Option<JsonValue>, remote: Option<JsonValue>, statuses: &FileStatuses) -> (p: VcsProject)
    ensures
        project_spec(
            root@,
            VcsKind::Pig,
            match work_status {
                Some(v) => str_of(get_spec(v, "current"@)),
                None => None,
            },
            match remote {
                Some(v) => pig_remote_spec(v),
                None => None,
            },
            None,
            None,
            statuses.entries(),
            p,
        ),
{
    let w = workspace(work_status);
    let r = remote_name(remote);
    project_from_statuses(root, VcsKind::Pig, w, r, None, None, statuses)
}

/// The JSON document that a command answered with: none where the command
/// failed or its answer is not JSON.
pub open spec fn answer_document(output: Result<String, String>) -> Option<JsonValue> {
    match output {
        Ok(text) => match json_document(text@) {
            Ok(v) => Some(v),
            Err(_) => None,
        },
        Err(_) => None,
    }
}

fn answer_json(output: Result<String, String>) -> (r: Option<JsonValue>)
    ensures
        r == answer_document(output),
{
    match output {
        Ok(text) => match parse_json(text.as_str()) {
            Ok(v) => Some(v),
            Err(_) => None,
        },
        Err(_) => None,
    }
}

/// The status of each file, from the text that `pig --json status` printed;
/// the parse error where that is not JSON.
pub fn statuses_output(text: &str) -> (r: Result<FileStatuses, String>)
    ensures
        match json_document(text@) {
            Ok(v) => r matches Ok(s) && s.wf() && s.map() == pig_statuses(v),
            Err(e) => r matches Err(m) && m@ == e,
        },
{
    match parse_json(text) {
        Ok(v) => Ok(statuses(&v)),
        Err(e) => Err(e),
    }
}

/// The diff of `file` (or of all files), from the text that
/// `pig --json diff --all` printed; the parse error where that is not JSON.
pub fn diff_output(text: &str, file: Option<&str>) -> (r: Result<String, String>)
    ensures
        match json_document(text@) {
            Ok(v) => r matches Ok(d) && d@ == pig_diff(
                Seq::empty(),
                v,
                match file {
                    Some(f) => Some(f@),
                    None => None,
                },
                None,
            ),
            Err(e) => r matches Err(m) && m@ == e,
        },
{
    match parse_json(text) {
        Ok(v) => Ok(diff(&v, file)),
        Err(e) => Err(e),
    }
}

/// The Pig project at `root`, from what `pig --json work status` and
/// `pig --json remote show` answered (each the text printed, or the error of
/// running it) and the status of its files.
pub fn project_output(
    root: &str,
    work_output: Result<String, String>,
    remote_output: Result<String, String>,
    statuses: &FileStatuses,
) -> (p: VcsProject)
    ensures
        project_spec(
            root@,
            VcsKind::Pig,
            match answer_document(work_output) {
                Some(v) => str_of(get_spec(v, "current"@)),
                None => None,
            },
            match answer_document(remote_output) {
                Some(v) => pig_remote_spec(v),
                None => None,
            },
            None,
            None,
            statuses.entries(),
            p,
        ),
{
    let work = answer_json(work_output);
    let remote = answer_json(remote_output);
    project(root, work, remote, statuses)
}

/// The arguments of `pig --json save`: the message, then the files where any
/// are named.
pub fn save_args(message: &str, files: &Vec<String>) -> (r: Vec<String>)
    ensures
        views_of(r@) == seq!["--json"@, "save"@, "--message"@, message@] + views_of(files@),
{
    let mut r: Vec<String> = Vec::new();
    r.push("--json".to_string());
    r.push("save".to_string());
    r.push("--message".to_string());
    r.push(message.to_string());
    let mut i: usize = 0;
    while i < files.len()
        invariant
            i <= files.len(),
            views_of(r@) == seq!["--json"@, "save"@, "--message"@, message@] + views_of(files@).take(i as int),
        decreases files.len() - i,
    {
        let ghost prev = views_of(r@);
        let f = files[i].clone();
        r.push(f);
        assert(views_of(r@) =~= prev.push(views_of(files@)[i as int]));
        assert(views_of(files@).take(i + 1) =~= views_of(files@).take(i as int).push(views_of(files@)[i as int]));
        i = i + 1;
    }
    assert(views_of(files@).take(files.len() as int) =~= views_of(files@));
    r
}

} // verus!
