//! What Rover reads from Git: the status of each file from
//! `git status --porcelain=v1 -z`, the branch and upstream, how far the branch
//! is ahead and behind, and the steps of a sync, a diff and a save.
use vstd::prelude::*;
use crate::status_map::{FileStatuses, VcsFileStatus, insert_all};
use crate::vcs::{VcsKind, VcsProject, project_from_statuses, project_spec, relative_path, relative_spec};
use crate::text::{
    bytes_list_view, chars_list_view, chars_of, lossy_utf8, parse_usize, parse_usize_spec, split_bytes,
    split_on, string_from_utf8_lossy, string_of, trim, trim_str, words, words_of,
};
use crate::operations_queue::opt_chars;

verus! {

broadcast use vstd::string::group_string_axioms;

/// The status of a file from its two status letters `x` (the index) and `y`
/// (the work tree).
pub open spec fn git_status_spec(x: char, y: char) -> VcsFileStatus {
    if x == '?' && y == '?' {
        VcsFileStatus::Untracked
    } else if x == '!' && y == '!' {
        VcsFileStatus::Ignored
    } else if x == 'U' || y == 'U' || (x == 'A' && y == 'A') || (x == 'D' && y == 'D') || (x == 'A'
        && y == 'D') || (x == 'D' && y == 'A') {
        VcsFileStatus::Conflicted
    } else if x == 'D' || y == 'D' {
        VcsFileStatus::Deleted
    } else if x == 'R' || y == 'R' {
        VcsFileStatus::Renamed
    } else if x == 'A' || y == 'A' {
        VcsFileStatus::Added
    } else {
        VcsFileStatus::Modified
    }
}

/// What each pair of status letters means. A conflict is an unmerged letter
/// `U`, or both sides adding or deleting; a file is deleted where either
/// side deletes it (a staged `git rm` as well as a removal in the work tree)
/// and it is no conflict; untracked and ignored files show `??` and `!!`.
pub proof fn lemma_status_letters(x: char, y: char)
    ensures
        (git_status_spec(x, y) == VcsFileStatus::Conflicted) <==> (x == 'U' || y == 'U' || ((x == 'A' || x == 'D')
            && (y == 'A' || y == 'D'))),
        (git_status_spec(x, y) == VcsFileStatus::Deleted) <==> ((x == 'D' && y != 'U' && y != 'A' && y != 'D') || (y
            == 'D' && x != 'U' && x != 'A' && x != 'D')),
        (git_status_spec(x, y) == VcsFileStatus::Untracked) <==> (x == '?' && y == '?'),
        (git_status_spec(x, y) == VcsFileStatus::Ignored) <==> (x == '!' && y == '!'),
        (git_status_spec(x, y) == VcsFileStatus::Renamed) <==> ((x == 'R' || y == 'R') && x != 'U' && x != 'D'
            && y != 'U' && y != 'D'),
        (git_status_spec(x, y) == VcsFileStatus::Added) <==> ((x == 'A' || y == 'A') && x != 'R' && y != 'R'
            && x != 'U' && x != 'D' && y != 'U' && y != 'D' && !(x == 'A' && y == 'A')),
{
}

/// The status of a file from its two status letters.
pub fn file_status(x: char, y: char) -> (r: VcsFileStatus)
    ensures
        r == git_status_spec(x, y),
{
    if x == '?' && y == '?' {
        return VcsFileStatus::Untracked;
    }
    if x == '!' && y == '!' {
        return VcsFileStatus::Ignored;
    }
    if x == 'U' || y == 'U' || (x == 'A' && y == 'A') || (x == 'D' && y == 'D') || (x == 'A' && y
        == 'D') || (x == 'D' && y == 'A') {
        return VcsFileStatus::Conflicted;
    }
    if x == 'D' || y == 'D' {
        return VcsFileStatus::Deleted;
    }
    if x == 'R' || y == 'R' {
        return VcsFileStatus::Renamed;
    }
    if x == 'A' || y == 'A' {
        return VcsFileStatus::Added;
    }
    VcsFileStatus::Modified
}

/// A rename or a copy: the next record is the path it came from.
pub open spec fn renamed_or_copied(x: char, y: char) -> bool {
    x == 'R' || x == 'C' || y == 'R' || y == 'C'
}

/// The path and status of each record of the porcelain output, split into its
/// non-empty pieces: a record is two status letters, a space and a path; a
/// piece shorter than that is skipped, and so is the piece after a rename or
/// copy, which names the old path.
pub open spec fn porcelain_records(chunks: Seq<Seq<u8>>) -> Seq<(Seq<char>, VcsFileStatus)>
    decreases chunks.len(),
{
    if chunks.len() == 0 {
        Seq::empty()
    } else {
        let c = chunks[0];
        let rest = chunks.drop_first();
        if c.len() < 4 {
            porcelain_records(rest)
        } else {
            let x = c[0] as char;
            let y = c[1] as char;
            let rec = (lossy_utf8(c.subrange(3, c.len() as int)), git_status_spec(x, y));
            if renamed_or_copied(x, y) && rest.len() > 0 {
                seq![rec] + porcelain_records(rest.drop_first())
            } else {
                seq![rec] + porcelain_records(rest)
            }
        }
    }
}

/// The non-empty pieces of the porcelain output between NUL bytes.
pub open spec fn porcelain_chunks(output: Seq<u8>) -> Seq<Seq<u8>> {
    split_on(output, 0u8).filter(|c: Seq<u8>| c.len() > 0)
}

/// The statuses that the output of `git status --porcelain=v1 -z` reports: each
/// record in turn, a later one for a path replacing an earlier one.
pub open spec fn porcelain_statuses(output: Seq<u8>) -> Map<Seq<char>, VcsFileStatus> {
    insert_all(Map::empty(), porcelain_records(porcelain_chunks(output)))
}

proof fn lemma_records_step(chunks: Seq<Seq<u8>>, i: int)
    requires
        0 <= i < chunks.len(),
    ensures
        porcelain_records(chunks.skip(i)) == ({
            let c = chunks[i];
            if c.len() < 4 {
                porcelain_records(chunks.skip(i + 1))
            } else {
                let x = c[0] as char;
                let y = c[1] as char;
                let rec = (lossy_utf8(c.subrange(3, c.len() as int)), git_status_spec(x, y));
                if renamed_or_copied(x, y) && i + 1 < chunks.len() {
                    seq![rec] + porcelain_records(chunks.skip(i + 2))
                } else {
                    seq![rec] + porcelain_records(chunks.skip(i + 1))
                }
            }
        }),
{
    let t = chunks.skip(i);
    assert(t.drop_first() =~= chunks.skip(i + 1));
    assert(t[0] == chunks[i]);
    if i + 1 < chunks.len() {
        assert(chunks.skip(i + 1).drop_first() =~= chunks.skip(i + 2));
    }
}

proof fn lemma_insert_all_prepend(m: Map<Seq<char>, VcsFileStatus>, rec: (Seq<char>, VcsFileStatus), rest: Seq<(Seq<char>, VcsFileStatus)>)
    ensures
        insert_all(m, seq![rec] + rest) == insert_all(m.insert(rec.0, rec.1), rest),
    decreases rest.len(),
{
    if rest.len() == 0 {
        assert((seq![rec] + rest).drop_last() =~= Seq::<(Seq<char>, VcsFileStatus)>::empty());
        assert(insert_all(m, Seq::<(Seq<char>, VcsFileStatus)>::empty()) == m);
    } else {
        assert((seq![rec] + rest).drop_last() =~= seq![rec] + rest.drop_last());
        lemma_insert_all_prepend(m, rec, rest.drop_last());
    }
}

/// The non-empty pieces of `v` between NUL bytes.
fn chunks_of(v: &Vec<u8>) -> (r: Vec<Vec<u8>>)
    ensures
        bytes_list_view(r@) == porcelain_chunks(v@),
{
    let pieces = split_bytes(v, 0u8);
    let ghost p = bytes_list_view(pieces@);
    let mut out: Vec<Vec<u8>> = Vec::new();
    let mut i: usize = 0;
    while i < pieces.len()
        invariant
            i <= pieces.len(),
            p == bytes_list_view(pieces@),
            p == split_on(v@, 0u8),
            bytes_list_view(out@) == p.take(i as int).filter(|c: Seq<u8>| c.len() > 0),
        decreases pieces.len() - i,
    {
        let ghost before = bytes_list_view(out@);
        let keep = pieces[i].len() > 0;
        if keep {
            out.push(pieces[i].clone());
        }
        proof {
            reveal_with_fuel(Seq::<_>::filter, 1);
            let ghost t = p.take(i + 1);
            assert(t.drop_last() =~= p.take(i as int));
            assert(t.last() == pieces@[i as int]@);
            if keep {
                assert(bytes_list_view(out@) =~= before.push(t.last()));
            } else {
                assert(bytes_list_view(out@) =~= before);
            }
        }
        i = i + 1;
    }
    assert(p.take(pieces.len() as int) =~= p);
    out
}

/// The status of each file that the output of
/// `git status --porcelain=v1 -z --untracked-files=all` reports.
pub fn statuses(output: &Vec<u8>) -> (r: FileStatuses)
    ensures
        r.wf(),
        r.map() == porcelain_statuses(output@),
{
    let chunks = chunks_of(output);
    let ghost cs = bytes_list_view(chunks@);
    let mut map = FileStatuses::new();
    let mut index: usize = 0;
    assert(cs.skip(0) =~= cs);
    while index < chunks.len()
        invariant
            cs == bytes_list_view(chunks@),
            cs == porcelain_chunks(output@),
            index <= chunks.len(),
            map.wf(),
            insert_all(map.map(), porcelain_records(cs.skip(index as int))) == porcelain_statuses(output@),
        decreases chunks.len() - index,
    {
        proof {
            lemma_records_step(cs, index as int);
        }
        let chunk = &chunks[index];
        assert(chunk@ == cs[index as int]);
        index = index + 1;
        if chunk.len() < 4 {
            continue;
        }
        let x = chunk[0] as char;
        let y = chunk[1] as char;
        let path = string_from_utf8_lossy(vstd::slice::slice_subrange(chunk.as_slice(), 3, chunk.len()));
        let st = file_status(x, y);
        let ghost before = map.map();
        let ghost rec = (path@, st);
        map.insert(path, st);
        let skip = (x == 'R' || x == 'C' || y == 'R' || y == 'C') && index < chunks.len();
        proof {
            let rest = if skip { cs.skip(index + 1) } else { cs.skip(index as int) };
            lemma_insert_all_prepend(before, rec, porcelain_records(rest));
        }
        if skip {
            index = index + 1;
        }
    }
    proof {
        assert(cs.skip(index as int) =~= Seq::<Seq<u8>>::empty());
        assert(porcelain_records(Seq::<Seq<u8>>::empty()) =~= Seq::<(Seq<char>, VcsFileStatus)>::empty());
    }
    map
}

} // verus!
verus! {

/// A tool's output, trimmed, where it is not empty.
pub open spec fn trimmed_output(out: Option<Seq<char>>) -> Option<Seq<char>> {
    match out {
        Some(o) => if trim(o).len() > 0 { Some(trim(o)) } else { None },
        None => None,
    }
}

/// The trimmed output of a tool, where there is some.
pub fn trimmed_nonempty(out: Option<String>) -> (r: Option<String>)
    ensures
        opt_chars(r) == trimmed_output(opt_chars(out)),
{
    match out {
        Some(o) => {
            let t = trim_str(o.as_str());
            if chars_of(t.as_str()).len() > 0 {
                Some(t)
            } else {
                None
            }
        },
        None => None,
    }
}

/// The remote of an upstream branch such as `origin/main`: what comes before
/// the first slash.
pub open spec fn remote_of(upstream: Seq<char>) -> Seq<char> {
    split_on(upstream, '/')[0]
}

/// The remote of the upstream branch `upstream`.
pub fn remote_name(upstream: &str) -> (r: String)
    ensures
        r@ == remote_of(upstream@),
{
    let pieces = crate::text::split_chars(&chars_of(upstream), '/');
    proof {
        crate::text::lemma_split_on_nonempty(upstream@, '/');
        assert(chars_list_view(pieces@)[0] == pieces@[0]@);
    }
    string_of(&pieces[0])
}

/// A number that a tool printed, where it is one.
pub open spec fn count_at(w: Seq<Seq<char>>, i: int) -> Option<int> {
    if i < w.len() {
        parse_usize_spec(w[i])
    } else {
        None
    }
}

/// The value of an optional count.
pub open spec fn count_value(o: Option<usize>) -> Option<int> {
    match o {
        Some(n) => Some(n as int),
        None => None,
    }
}

/// How many commits the branch is ahead and behind its upstream, from the
/// output of `git rev-list --left-right --count @{upstream}...HEAD`: the
/// behind count, then the ahead count. No output, no counts.
pub fn ahead_behind(output: Option<String>) -> (r: (Option<usize>, Option<usize>))
    ensures
        match output {
            Some(o) => count_value(r.0) == count_at(words(o@), 1) && count_value(r.1) == count_at(words(o@), 0),
            None => r.0 is None && r.1 is None,
        },
{
    match output {
        None => (None, None),
        Some(o) => {
            let ws = words_of(&chars_of(o.as_str()));
            let ghost w = chars_list_view(ws@);
            let behind = if ws.len() > 0 {
                assert(w[0] == ws@[0]@);
                parse_usize(string_of(&ws[0]).as_str())
            } else {
                None
            };
            let ahead = if ws.len() > 1 {
                assert(w[1] == ws@[1]@);
                parse_usize(string_of(&ws[1]).as_str())
            } else {
                None
            };
            (ahead, behind)
        },
    }
}

/// The Git project at `root`: its branch from `git branch --show-current`,
/// its remote from the upstream that `git rev-parse` names, how far it is
/// ahead and behind, and its file statuses. A `None` output is a command
/// that failed.
pub fn project(
    root: &str,
    branch_output: Option<String>,
    upstream_output: Option<String>,
    counts_output: Option<String>,
    statuses: &FileStatuses,
) -> (p: VcsProject)
    ensures
        ({
            let upstream = trimmed_output(opt_chars(upstream_output));
            let remote = match upstream {
                Some(u) => Some(remote_of(u)),
                None => None,
            };
            let w = match counts_output {
                Some(o) => Some(words(o@)),
                None => None,
            };
            &&& project_spec(
                root@,
                VcsKind::Git,
                trimmed_output(opt_chars(branch_output)),
                remote,
                p.ahead,
                p.behind,
                statuses.entries(),
                p,
            )
            &&& match w {
                Some(w) => count_value(p.ahead) == count_at(w, 1) && count_value(p.behind) == count_at(w, 0),
                None => p.ahead is None && p.behind is None,
            }
        }),
{
    let branch = trimmed_nonempty(branch_output);
    let upstream = trimmed_nonempty(upstream_output);
    let remote = match &upstream {
        Some(u) => Some(remote_name(u.as_str())),
        None => None,
    };
    let (ahead, behind) = ahead_behind(counts_output);
    project_from_statuses(root, VcsKind::Git, branch, remote, ahead, behind, statuses)
}

/// The first check of a sync: a project with conflicts or changes, or that
/// has diverged from its remote, cannot be synced. Otherwise the answer says
/// whether to pull first, which is where the remote is ahead.
pub fn sync_check(current: &VcsProject) -> (r: Result<bool, String>)
    ensures
        ({
            let ahead = match current.ahead { Some(n) => n as int, None => 0 };
            let behind = match current.behind { Some(n) => n as int, None => 0 };
            if current.conflicted_count > 0 {
                r matches Err(e) && e@ == "Resolve conflicts before syncing"@
            } else if current.changed_count > 0 {
                r matches Err(e) && e@ == "Commit or discard changes before syncing"@
            } else if ahead > 0 && behind > 0 {
                r matches Err(e) && e@ == "Remote has changes. Pull first from a terminal."@
            } else {
                r == Ok::<bool, String>(behind > 0)
            }
        }),
{
    if current.conflicted_count > 0 {
        return Err("Resolve conflicts before syncing".to_string());
    }
    if current.changed_count > 0 {
        return Err("Commit or discard changes before syncing".to_string());
    }
    let ahead = match current.ahead { Some(n) => n, None => 0 };
    let behind = match current.behind { Some(n) => n, None => 0 };
    if ahead > 0 && behind > 0 {
        return Err("Remote has changes. Pull first from a terminal.".to_string());
    }
    Ok(behind > 0)
}

/// The last step of a sync: push where the project, after any pull, is still
/// ahead of its remote, or where it had no upstream to compare with.
pub fn sync_should_push(current: &VcsProject, next: &VcsProject) -> (r: bool)
    ensures
        r == ({
            let ahead = match current.ahead { Some(n) => n as int, None => 0 };
            let next_ahead = match next.ahead { Some(n) => n as int, None => ahead };
            next_ahead > 0 || (current.ahead is None && current.behind is None)
        }),
{
    let ahead = match current.ahead { Some(n) => n, None => 0 };
    let next_ahead = match next.ahead { Some(n) => n, None => ahead };
    next_ahead > 0 || (current.ahead.is_none() && current.behind.is_none())
}

/// The views of a list of strings.
pub open spec fn views_of(v: Seq<String>) -> Seq<Seq<char>> {
    v.map_values(|s: String| s@)
}

/// The arguments of `git diff` against `HEAD`, or of the plain work tree diff
/// that follows where that fails, for one file or all.
pub open spec fn diff_args_spec(file: Option<Seq<char>>, against_head: bool) -> Seq<Seq<char>> {
    let base = if against_head {
        seq!["diff"@, "--no-ext-diff"@, "HEAD"@, "--"@]
    } else {
        seq!["diff"@, "--no-ext-diff"@, "--"@]
    };
    match file {
        Some(f) => base.push(f),
        None => base,
    }
}

/// The arguments of a `git diff`, for the file `file` (relative to the project)
/// or all files.
pub fn diff_args(file: Option<&str>, against_head: bool) -> (r: Vec<String>)
    ensures
        views_of(r@) == diff_args_spec(
            match file {
                Some(f) => Some(f@),
                None => None,
            },
            against_head,
        ),
{
    let mut r: Vec<String> = Vec::new();
    r.push("diff".to_string());
    r.push("--no-ext-diff".to_string());
    if against_head {
        r.push("HEAD".to_string());
    }
    r.push("--".to_string());
    match file {
        Some(f) => r.push(f.to_string()),
        None => {},
    }
    assert(views_of(r@) =~= diff_args_spec(
        match file {
            Some(f) => Some(f@),
            None => None,
        },
        against_head,
    ));
    r
}

/// What follows the diff against `HEAD`: its text where it ran, else the
/// arguments of the diff of the working tree without `HEAD` (as in a
/// repository with no commit yet), which is run next.
pub fn after_head_diff(file: Option<&str>, with_head: Result<String, String>) -> (r: Result<String, Vec<String>>)
    ensures
        match with_head {
            Ok(d) => r == Ok::<String, Vec<String>>(d),
            Err(_) => r matches Err(args) && views_of(args@) == diff_args_spec(
                match file {
                    Some(f) => Some(f@),
                    None => None,
                },
                false,
            ),
        },
{
    match with_head {
        Ok(d) => Ok(d),
        Err(_) => Err(diff_args(file, false)),
    }
}

/// A diff is the answer where it shows something or covers all files; an
/// empty diff of one file is looked at further.
pub fn diff_is_final(diff: &str, file: Option<&str>) -> (r: bool)
    ensures
        r == (trim(diff@).len() > 0 || file is None),
{
    chars_of(trim_str(diff).as_str()).len() > 0 || file.is_none()
}

/// A file that Git does not track yet, or has only added, is shown whole
/// against an empty file.
pub fn needs_new_file_diff(status: Option<VcsFileStatus>) -> (r: bool)
    ensures
        r == (status == Some(VcsFileStatus::Untracked) || status == Some(VcsFileStatus::Added)),
{
    match status {
        Some(VcsFileStatus::Untracked) | Some(VcsFileStatus::Added) => true,
        _ => false,
    }
}

/// The arguments of the diff that shows the new file `file` whole.
pub fn new_file_diff_args(file: &str) -> (r: Vec<String>)
    ensures
        views_of(r@) == seq!["diff"@, "--no-index"@, "--"@, "/dev/null"@, file@],
{
    let mut r: Vec<String> = Vec::new();
    r.push("diff".to_string());
    r.push("--no-index".to_string());
    r.push("--".to_string());
    r.push("/dev/null".to_string());
    r.push(file.to_string());
    assert(views_of(r@) =~= seq!["diff"@, "--no-index"@, "--"@, "/dev/null"@, file@]);
    r
}

/// The files to save, relative to the project at `root`, without those that
/// name the project itself.
pub open spec fn save_files_spec(root: Seq<char>, files: Seq<Seq<char>>) -> Seq<Seq<char>> {
    files.map_values(|f: Seq<char>| relative_spec(root, f)).filter(|f: Seq<char>| f.len() > 0)
}

/// The files a save names, relative to the project at `root`, without the
/// empty ones.
pub fn save_files(root: &str, files: Option<Vec<String>>) -> (r: Vec<String>)
    ensures
        views_of(r@) == save_files_spec(
            root@,
            match files {
                Some(v) => views_of(v@),
                None => Seq::empty(),
            },
        ),
{
    let files = match files {
        Some(v) => v,
        None => Vec::new(),
    };
    let ghost fs = views_of(files@);
    let ghost rel = fs.map_values(|f: Seq<char>| relative_spec(root@, f));
    let mut out: Vec<String> = Vec::new();
    let mut i: usize = 0;
    while i < files.len()
        invariant
            i <= files.len(),
            fs == views_of(files@),
            rel == fs.map_values(|f: Seq<char>| relative_spec(root@, f)),
            views_of(out@) == rel.take(i as int).filter(|f: Seq<char>| f.len() > 0),
        decreases files.len() - i,
    {
        let r = relative_path(root, files[i].as_str());
        let ghost before = views_of(out@);
        let keep = chars_of(r.as_str()).len() > 0;
        let ghost rv = r@;
        if keep {
            out.push(r);
        }
        proof {
            reveal_with_fuel(Seq::<_>::filter, 1);
            let t = rel.take(i + 1);
            assert(t.drop_last() =~= rel.take(i as int));
            assert(t.last() == rv);
            if keep {
                assert(views_of(out@) =~= before.push(rv));
            } else {
                assert(views_of(out@) =~= before);
            }
        }
        i = i + 1;
    }
    assert(rel.take(files.len() as int) =~= rel);
    out
}

/// The Git commands of a save: stage everything, or the named files, then
/// commit with `message`.
pub fn save_commands(root: &str, message: &str, files: Option<Vec<String>>) -> (r: Vec<Vec<String>>)
    ensures
        r.len() == 2,
        ({
            let fs = save_files_spec(
                root@,
                match files {
                    Some(v) => views_of(v@),
                    None => Seq::empty(),
                },
            );
            &&& views_of(r@[0]@) == (if fs.len() == 0 {
                seq!["add"@, "-A"@]
            } else {
                seq!["add"@, "--"@] + fs
            })
            &&& views_of(r@[1]@) == seq!["commit"@, "-m"@, message@]
        }),
{
    let fs = save_files(root, files);
    let mut add: Vec<String> = Vec::new();
    add.push("add".to_string());
    if fs.len() == 0 {
        add.push("-A".to_string());
    } else {
        add.push("--".to_string());
        let ghost head = add@;
        let mut i: usize = 0;
        while i < fs.len()
            invariant
                i <= fs.len(),
                views_of(add@) == seq!["add"@, "--"@] + views_of(fs@).take(i as int),
            decreases fs.len() - i,
        {
            let ghost prev = views_of(add@);
            let f = fs[i].clone();
            assert(f@ == views_of(fs@)[i as int]);
            add.push(f);
            assert(views_of(add@) =~= prev.push(views_of(fs@)[i as int]));
            assert(views_of(fs@).take(i + 1) =~= views_of(fs@).take(i as int).push(views_of(fs@)[i as int]));
            i = i + 1;
            assert(views_of(add@) =~= seq!["add"@, "--"@] + views_of(fs@).take(i as int));
        }
        assert(views_of(fs@).take(fs.len() as int) =~= views_of(fs@));
    }
    assert(fs.len() == 0 ==> views_of(add@) =~= seq!["add"@, "-A"@]);
    let mut commit: Vec<String> = Vec::new();
    commit.push("commit".to_string());
    commit.push("-m".to_string());
    commit.push(message.to_string());
    assert(views_of(commit@) =~= seq!["commit"@, "-m"@, message@]);
    let mut r: Vec<Vec<String>> = Vec::new();
    r.push(add);
    r.push(commit);
    r
}

} // verus!
