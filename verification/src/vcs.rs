//! Version control status of a project: the project summary built from the
//! statuses of its files, the status jobs the front end polls, and the rules
//! that tie a path to a project and a tool's failure to an answer.
use vstd::prelude::*;
use crate::status_map::{FileStatuses, VcsFileStatus};
use crate::paths::{absolute, is_absolute, parent, path_join, path_parent, path_strip_prefix, strip_prefix, join};
use crate::path_codec::{normalize_path, normalized};
use crate::text::{chars_of, concat, ends_with, str_ends_with, str_eq, string_list_view, string_of, trim, trim_str};
use crate::operations_queue::{decimal, decimal_string, opt_chars};

verus! {

broadcast use vstd::string::group_string_axioms;

/// The version control tool of a project.
#[derive(Clone, Copy, Debug, PartialEq, Eq, Structural)]
pub enum VcsKind {
    Git,
    Pig,
}

/// A versioned project and the counts of its files by status.
pub struct VcsProject {
    pub root: String,
    pub kind: VcsKind,
    pub branch_or_workspace: Option<String>,
    pub remote_name: Option<String>,
    pub clean: bool,
    pub ahead: Option<usize>,
    pub behind: Option<usize>,
    pub changed_count: usize,
    pub added_count: usize,
    pub deleted_count: usize,
    pub conflicted_count: usize,
}

/// A project and the status of each of its files.
pub struct VcsStatusSnapshot {
    pub project: VcsProject,
    pub statuses: FileStatuses,
}

/// The handle of a status job started in the background.
pub struct VcsJobTicket {
    pub id: String,
}

/// What a status job has come to: not done yet, or done with a snapshot (none
/// where the path is not versioned) or an error.
pub struct VcsJobUpdate {
    pub done: bool,
    pub result: Option<VcsStatusSnapshot>,
    pub error: Option<String>,
}

/// The parameters of the version control commands.
pub struct VcsParams {
    pub path: Option<String>,
    pub root: Option<String>,
    pub file_path: Option<String>,
    pub message: Option<String>,
    pub files: Option<Vec<String>>,
    pub job_id: Option<String>,
}

/// A status job: still running, or done with its result.
pub enum VcsJobState {
    Pending,
    Done(Result<Option<VcsStatusSnapshot>, String>),
}

/// A file with this status counts as changed.
pub open spec fn is_changed(s: VcsFileStatus) -> bool {
    !(s == VcsFileStatus::Clean || s == VcsFileStatus::Ignored)
}

/// A file with this status counts as added.
pub open spec fn is_added(s: VcsFileStatus) -> bool {
    s == VcsFileStatus::Added || s == VcsFileStatus::Untracked
}

/// A file with this status counts as deleted.
pub open spec fn is_deleted(s: VcsFileStatus) -> bool {
    s == VcsFileStatus::Deleted
}

/// A file with this status counts as conflicted.
pub open spec fn is_conflicted(s: VcsFileStatus) -> bool {
    s == VcsFileStatus::Conflicted
}

/// How many entries of `s` have a status that satisfies `f`.
pub open spec fn count_where(s: Seq<(Seq<char>, VcsFileStatus)>, f: spec_fn(VcsFileStatus) -> bool) -> nat
    decreases s.len(),
{
    if s.len() == 0 {
        0
    } else {
        count_where(s.drop_last(), f) + if f(s.last().1) { 1nat } else { 0nat }
    }
}

proof fn lemma_count_bound(s: Seq<(Seq<char>, VcsFileStatus)>, f: spec_fn(VcsFileStatus) -> bool)
    ensures
        count_where(s, f) <= s.len(),
    decreases s.len(),
{
    if s.len() > 0 {
        lemma_count_bound(s.drop_last(), f);
    }
}

/// The added, deleted and conflicted files are among the changed ones, and are
/// told apart: their counts add up to no more than the changed count, which is
/// no more than the number of files.
pub proof fn lemma_counts_within_changed(s: Seq<(Seq<char>, VcsFileStatus)>)
    ensures
        count_where(s, |x: VcsFileStatus| is_added(x)) + count_where(s, |x: VcsFileStatus| is_deleted(x))
            + count_where(s, |x: VcsFileStatus| is_conflicted(x)) <= count_where(
            s,
            |x: VcsFileStatus| is_changed(x),
        ),
        count_where(s, |x: VcsFileStatus| is_changed(x)) <= s.len(),
    decreases s.len(),
{
    if s.len() > 0 {
        lemma_counts_within_changed(s.drop_last());
    }
}

proof fn lemma_count_where_filter(s: Seq<(Seq<char>, VcsFileStatus)>, f: spec_fn(VcsFileStatus) -> bool)
    ensures
        count_where(s, f) == s.filter(|e: (Seq<char>, VcsFileStatus)| f(e.1)).len(),
    decreases s.len(),
{
    reveal_with_fuel(Seq::<_>::filter, 1);
    if s.len() > 0 {
        lemma_count_where_filter(s.drop_last(), f);
    }
}

/// The summary `project_from_statuses` makes.
pub open spec fn project_spec(
    root: Seq<char>,
    kind: VcsKind,
    branch_or_workspace: Option<Seq<char>>,
    remote_name: Option<Seq<char>>,
    ahead: Option<usize>,
    behind: Option<usize>,
    entries: Seq<(Seq<char>, VcsFileStatus)>,
    p: VcsProject,
) -> bool {
    &&& p.root@ == root
    &&& p.kind == kind
    &&& opt_chars(p.branch_or_workspace) == branch_or_workspace
    &&& opt_chars(p.remote_name) == remote_name
    &&& p.ahead == ahead
    &&& p.behind == behind
    &&& p.changed_count == count_where(entries, |x: VcsFileStatus| is_changed(x))
    &&& p.added_count == count_where(entries, |x: VcsFileStatus| is_added(x))
    &&& p.deleted_count == count_where(entries, |x: VcsFileStatus| is_deleted(x))
    &&& p.conflicted_count == count_where(entries, |x: VcsFileStatus| is_conflicted(x))
    &&& p.clean == (p.changed_count == 0)
}

/// The summary of a project from the status of its files: a file is changed
/// unless clean or ignored, added where added or untracked, and the project
/// is clean where no file is changed.
pub fn project_from_statuses(
    root: &str,
    kind: VcsKind,
    branch_or_workspace: Option<String>,
    remote_name: Option<String>,
    ahead: Option<usize>,
    behind: Option<usize>,
    statuses: &FileStatuses,
) -> (p: VcsProject)
    ensures
        project_spec(
            root@,
            kind,
            opt_chars(branch_or_workspace),
            opt_chars(remote_name),
            ahead,
            behind,
            statuses.entries(),
            p,
        ),
{
    let ghost s = statuses.entries();
    let mut changed: usize = 0;
    let mut added: usize = 0;
    let mut deleted: usize = 0;
    let mut conflicted: usize = 0;
    let mut i: usize = 0;
    assert(s.take(0) =~= Seq::<(Seq<char>, VcsFileStatus)>::empty());
    while i < statuses.len()
        invariant
            s == statuses.entries(),
            i <= s.len(),
            changed == count_where(s.take(i as int), |x: VcsFileStatus| is_changed(x)),
            added == count_where(s.take(i as int), |x: VcsFileStatus| is_added(x)),
            deleted == count_where(s.take(i as int), |x: VcsFileStatus| is_deleted(x)),
            conflicted == count_where(s.take(i as int), |x: VcsFileStatus| is_conflicted(x)),
            changed <= i,
            added <= i,
            deleted <= i,
            conflicted <= i,
        decreases s.len() - i,
    {
        let (_, st) = statuses.entry(i);
        assert(s.take(i + 1).drop_last() =~= s.take(i as int));
        assert(s.take(i + 1).last() == s[i as int]);
        if !(st == VcsFileStatus::Clean || st == VcsFileStatus::Ignored) {
            changed = changed + 1;
        }
        if st == VcsFileStatus::Added || st == VcsFileStatus::Untracked {
            added = added + 1;
        }
        if st == VcsFileStatus::Deleted {
            deleted = deleted + 1;
        }
        if st == VcsFileStatus::Conflicted {
            conflicted = conflicted + 1;
        }
        i = i + 1;
    }
    assert(s.take(s.len() as int) =~= s);
    VcsProject {
        root: root.to_string(),
        kind,
        branch_or_workspace,
        remote_name,
        clean: changed == 0,
        ahead,
        behind,
        changed_count: changed,
        added_count: added,
        deleted_count: deleted,
        conflicted_count: conflicted,
    }
}

/// The name of a tool as the user sees it.
pub open spec fn program_label_spec(program: Seq<char>) -> Seq<char> {
    if program == "git"@ {
        "Git"@
    } else if program == "pig"@ {
        "Pig"@
    } else {
        "VCS tool"@
    }
}

/// The name of the tool `program` as the user sees it.
pub fn program_label(program: &str) -> (r: &'static str)
    ensures
        r@ == program_label_spec(program@),
{
    if str_eq(program, "git") {
        "Git"
    } else if str_eq(program, "pig") {
        "Pig"
    } else {
        "VCS tool"
    }
}

/// The message that says a tool could not be found ends so.
pub open spec fn missing_program_spec(error: Seq<char>) -> bool {
    ends_with(error, " executable not found"@)
}

/// Whether `error` says that a tool could not be found.
pub fn is_missing_program_error(error: &str) -> (r: bool)
    ensures
        r == missing_program_spec(error@),
{
    str_ends_with(error, " executable not found")
}

/// The error for a tool that could not be found.
pub fn missing_program_error(program: &str) -> (r: String)
    ensures
        r@ == program_label_spec(program@) + " executable not found"@,
        missing_program_spec(r@),
{
    let r = concat(program_label(program), " executable not found");
    proof {
        let t = " executable not found"@;
        assert(r@.subrange(r@.len() - t.len(), r@.len() as int) =~= t);
    }
    r
}

/// `s` with each backslash made a slash.
pub open spec fn slashes(s: Seq<char>) -> Seq<char> {
    s.map_values(|c: char| if c == '\\' { '/' } else { c })
}

/// A path as the tool of the project at `root` names it: relative to `root`
/// where it is absolute and lies under `root`, with slashes only.
pub open spec fn relative_spec(root: Seq<char>, path: Seq<char>) -> Seq<char> {
    slashes(
        if absolute(path) {
            match path_strip_prefix(path, root) {
                Some(rest) => rest,
                None => path,
            }
        } else {
            path
        },
    )
}

/// `path` relative to the project at `root`, with slashes only.
pub fn relative_path(root: &str, path: &str) -> (r: String)
    ensures
        r@ == relative_spec(root@, path@),
{
    let rel = if is_absolute(path) {
        match strip_prefix(path, root) {
            Some(rest) => rest,
            None => path.to_string(),
        }
    } else {
        path.to_string()
    };
    let cs = chars_of(rel.as_str());
    let mut out: Vec<char> = Vec::new();
    let mut i: usize = 0;
    while i < cs.len()
        invariant
            i <= cs.len(),
            out@ == slashes(cs@.take(i as int)),
        decreases cs.len() - i,
    {
        let c = cs[i];
        out.push(if c == '\\' { '/' } else { c });
        i = i + 1;
        assert(out@ =~= slashes(cs@.take(i as int)));
    }
    assert(cs@.take(cs.len() as int) =~= cs@);
    string_of(&out)
}

/// What `absolute_path` answers for `path` with the working directory `cwd`.
pub open spec fn absolute_path_spec(path: Seq<char>, cwd: Result<String, String>, r: Result<String, String>) -> bool {
    let p = trim(normalized(path));
    if p.len() == 0 {
        r matches Err(e) && e@ == "VCS path is required"@
    } else if absolute(p) {
        r matches Ok(q) && q@ == p
    } else {
        match cwd {
            Ok(dir) => r matches Ok(q) && q@ == path_join(dir@, p),
            Err(error) => r matches Err(e) && e@ == "Could not resolve VCS path `"@ + p + "`: "@ + error@,
        }
    }
}

/// The absolute form of a path the user gave: decoded, trimmed, and resolved
/// against the working directory `cwd` where relative.
pub fn absolute_path(path: &str, cwd: Result<String, String>) -> (r: Result<String, String>)
    ensures
        absolute_path_spec(path@, cwd, r),
{
    let normalized_path = normalize_path(path.to_string());
    let p = trim_str(normalized_path.as_str());
    if chars_of(p.as_str()).len() == 0 {
        return Err("VCS path is required".to_string());
    }
    if is_absolute(p.as_str()) {
        return Ok(p);
    }
    match cwd {
        Ok(dir) => Ok(join(dir.as_str(), p.as_str())),
        Err(error) => {
            let a = concat("Could not resolve VCS path `", p.as_str());
            let b = concat(a.as_str(), "`: ");
            Err(concat(b.as_str(), error.as_str()))
        },
    }
}

/// What `provider_root` answers: the error of the path, else that the root
/// no longer exists, else the project found above it.
pub open spec fn provider_root_spec(
    path: Result<String, String>,
    canonical: Result<String, String>,
    found: Option<(VcsKind, String)>,
    r: Result<(VcsKind, String), String>,
) -> bool {
    match path {
        Err(e) => r == Err::<(VcsKind, String), String>(e),
        Ok(p) => match canonical {
            Err(error) => r matches Err(e) && e@ == "VCS root no longer exists: "@ + p@ + ": "@ + error@,
            Ok(_) => match found {
                Some(f) => r == Ok::<(VcsKind, String), String>(f),
                None => r matches Err(e) && e@ == "No versioned project found"@,
            },
        },
    }
}

/// The project a command names: `path` is the absolute path the user gave,
/// `canonical` what the file system made of it, and `found` the versioned
/// project at or above it.
pub fn provider_root(
    path: Result<String, String>,
    canonical: Result<String, String>,
    found: Option<(VcsKind, String)>,
) -> (r: Result<(VcsKind, String), String>)
    ensures
        provider_root_spec(path, canonical, found, r),
{
    match path {
        Err(e) => Err(e),
        Ok(p) => match canonical {
            Err(error) => {
                let a = concat("VCS root no longer exists: ", p.as_str());
                let b = concat(a.as_str(), ": ");
                Err(concat(b.as_str(), error.as_str()))
            },
            Ok(_) => match found {
                Some(f) => Ok(f),
                None => Err("No versioned project found".to_string()),
            },
        },
    }
}

/// Which tool versions the directory, from what it holds: a `.pig` directory
/// first, then a `.git` one. The home directory itself is never a project.
pub fn root_marker(is_home: bool, has_pig: bool, has_git: bool) -> (r: Option<VcsKind>)
    ensures
        r == (if is_home {
            None
        } else if has_pig {
            Some(VcsKind::Pig)
        } else if has_git {
            Some(VcsKind::Git)
        } else {
            None
        }),
{
    if is_home {
        None
    } else if has_pig {
        Some(VcsKind::Pig)
    } else if has_git {
        Some(VcsKind::Git)
    } else {
        None
    }
}

/// The path `p` and each of its ancestors in turn, nearest first
/// (`Path::ancestors`), as far as each parent is shorter than the path it
/// came from.
pub open spec fn ancestor_chain(p: Seq<char>) -> Seq<Seq<char>>
    decreases p.len(),
{
    match path_parent(p) {
        Some(q) => if q.len() < p.len() {
            seq![p] + ancestor_chain(q)
        } else {
            seq![p]
        },
        None => seq![p],
    }
}

/// Where the search for the project of a path starts, before the file
/// system resolves links: none where the path cannot be made absolute (it is
/// empty, or relative without a working directory); else the directory that
/// holds it where it names a file (`is_file`), else the path itself.
pub fn search_start(absolute: Result<String, String>, is_file: bool) -> (r: Option<String>)
    ensures
        match absolute {
            Err(_) => r is None,
            Ok(p) => if is_file {
                match path_parent(p@) {
                    Some(d) => r matches Some(x) && x@ == d,
                    None => r is None,
                }
            } else {
                r == Some(p)
            },
        },
{
    match absolute {
        Err(_) => None,
        Ok(p) => if is_file {
            parent(p.as_str())
        } else {
            Some(p)
        },
    }
}

/// The directories that a search for a project looks at, from `start` up.
pub fn ancestors(start: &str) -> (r: Vec<String>)
    ensures
        string_list_view(r@) == ancestor_chain(start@),
{
    let mut out: Vec<String> = Vec::new();
    let mut cur = start.to_string();
    loop
        invariant
            string_list_view(out@) + ancestor_chain(cur@) == ancestor_chain(start@),
        decreases cur@.len(),
    {
        let ghost before = string_list_view(out@);
        let ghost c = cur@;
        let next = parent(cur.as_str());
        match next {
            Some(q) => {
                if q.unicode_len() < cur.unicode_len() {
                    out.push(cur);
                    assert(string_list_view(out@) =~= before.push(c));
                    assert(before.push(c) + ancestor_chain(q@) =~= before + (seq![c] + ancestor_chain(q@)));
                    cur = q;
                } else {
                    out.push(cur);
                    assert(string_list_view(out@) =~= before + seq![c]);
                    return out;
                }
            },
            None => {
                out.push(cur);
                assert(string_list_view(out@) =~= before + seq![c]);
                return out;
            },
        }
    }
}

/// A directory on the way up from where a search starts, with what it is and
/// holds: whether it is the home directory, and whether it has a `.pig` or a
/// `.git` entry.
pub struct RootCandidate {
    pub dir: String,
    pub is_home: bool,
    pub has_pig: bool,
    pub has_git: bool,
}

/// The tool that versions the directory `c` (as `root_marker` decides).
pub open spec fn marker_of(c: RootCandidate) -> Option<VcsKind> {
    if c.is_home {
        None
    } else if c.has_pig {
        Some(VcsKind::Pig)
    } else if c.has_git {
        Some(VcsKind::Git)
    } else {
        None
    }
}

/// The first of the directories `cs` that a tool versions, with that tool.
pub open spec fn first_root(cs: Seq<RootCandidate>) -> Option<(VcsKind, Seq<char>)>
    decreases cs.len(),
{
    if cs.len() == 0 {
        None
    } else {
        match marker_of(cs[0]) {
            Some(k) => Some((k, cs[0].dir@)),
            None => first_root(cs.drop_first()),
        }
    }
}

/// The project that a search finds, from the directories it looks at
/// (nearest first): the first that holds `.pig` or `.git` and is not the home
/// directory, with its tool.
pub fn find_root(candidates: &Vec<RootCandidate>) -> (r: Option<(VcsKind, String)>)
    ensures
        match r {
            Some((k, d)) => first_root(candidates@) == Some((k, d@)),
            None => first_root(candidates@) is None,
        },
{
    let mut i: usize = 0;
    assert(candidates@.skip(0) =~= candidates@);
    while i < candidates.len()
        invariant
            i <= candidates.len(),
            first_root(candidates@.skip(i as int)) == first_root(candidates@),
        decreases candidates.len() - i,
    {
        let c = &candidates[i];
        assert(candidates@.skip(i as int)[0] == *c);
        assert(candidates@.skip(i as int).drop_first() =~= candidates@.skip(i + 1));
        match root_marker(c.is_home, c.has_pig, c.has_git) {
            Some(k) => {
                return Some((k, c.dir.clone()));
            },
            None => {},
        }
        i = i + 1;
    }
    None
}

/// A project's counts are the numbers of its files by status: changed are
/// all but the clean and the ignored, added the added and the untracked,
/// deleted the deleted, conflicted the conflicted; it is clean where nothing
/// changed.
pub proof fn lemma_project_counts(
    root: Seq<char>,
    kind: VcsKind,
    branch_or_workspace: Option<Seq<char>>,
    remote_name: Option<Seq<char>>,
    ahead: Option<usize>,
    behind: Option<usize>,
    entries: Seq<(Seq<char>, VcsFileStatus)>,
    p: VcsProject,
)
    requires
        project_spec(root, kind, branch_or_workspace, remote_name, ahead, behind, entries, p),
    ensures
        p.changed_count == entries.filter(
            |e: (Seq<char>, VcsFileStatus)| e.1 != VcsFileStatus::Clean && e.1 != VcsFileStatus::Ignored,
        ).len(),
        p.added_count == entries.filter(
            |e: (Seq<char>, VcsFileStatus)| e.1 == VcsFileStatus::Added || e.1 == VcsFileStatus::Untracked,
        ).len(),
        p.deleted_count == entries.filter(|e: (Seq<char>, VcsFileStatus)| e.1 == VcsFileStatus::Deleted).len(),
        p.conflicted_count == entries.filter(|e: (Seq<char>, VcsFileStatus)| e.1 == VcsFileStatus::Conflicted).len(),
        p.clean <==> p.changed_count == 0,
{
    let fc = |x: VcsFileStatus| is_changed(x);
    let fa = |x: VcsFileStatus| is_added(x);
    let fd = |x: VcsFileStatus| is_deleted(x);
    let fx = |x: VcsFileStatus| is_conflicted(x);
    lemma_count_where_filter(entries, fc);
    lemma_count_where_filter(entries, fa);
    lemma_count_where_filter(entries, fd);
    lemma_count_where_filter(entries, fx);
    assert((|e: (Seq<char>, VcsFileStatus)| fc(e.1)) =~= (
        |e: (Seq<char>, VcsFileStatus)| e.1 != VcsFileStatus::Clean && e.1 != VcsFileStatus::Ignored
    ));
    assert((|e: (Seq<char>, VcsFileStatus)| fa(e.1)) =~= (
        |e: (Seq<char>, VcsFileStatus)| e.1 == VcsFileStatus::Added || e.1 == VcsFileStatus::Untracked
    ));
    assert((|e: (Seq<char>, VcsFileStatus)| fd(e.1)) =~= (|e: (Seq<char>, VcsFileStatus)| e.1 == VcsFileStatus::Deleted));
    assert((|e: (Seq<char>, VcsFileStatus)| fx(e.1)) =~= (
        |e: (Seq<char>, VcsFileStatus)| e.1 == VcsFileStatus::Conflicted
    ));
    assert(entries.filter(|e: (Seq<char>, VcsFileStatus)| fc(e.1)) =~= entries.filter(
        |e: (Seq<char>, VcsFileStatus)| e.1 != VcsFileStatus::Clean && e.1 != VcsFileStatus::Ignored,
    ));
    assert(entries.filter(|e: (Seq<char>, VcsFileStatus)| fa(e.1)) =~= entries.filter(
        |e: (Seq<char>, VcsFileStatus)| e.1 == VcsFileStatus::Added || e.1 == VcsFileStatus::Untracked,
    ));
    assert(entries.filter(|e: (Seq<char>, VcsFileStatus)| fd(e.1)) =~= entries.filter(
        |e: (Seq<char>, VcsFileStatus)| e.1 == VcsFileStatus::Deleted,
    ));
    assert(entries.filter(|e: (Seq<char>, VcsFileStatus)| fx(e.1)) =~= entries.filter(
        |e: (Seq<char>, VcsFileStatus)| e.1 == VcsFileStatus::Conflicted,
    ));
}

/// What `detect` answers for the outcome of reading the project: none where
/// there is no project, or its tool is missing.
pub open spec fn detect_spec(outcome: Option<Result<VcsProject, String>>, r: Result<Option<VcsProject>, String>) -> bool {
    match outcome {
        None => r == Ok::<Option<VcsProject>, String>(None),
        Some(Ok(p)) => r == Ok::<Option<VcsProject>, String>(Some(p)),
        Some(Err(e)) => if missing_program_spec(e@) {
            r == Ok::<Option<VcsProject>, String>(None)
        } else {
            r == Err::<Option<VcsProject>, String>(e)
        },
    }
}

/// The project of a path, from the outcome of reading it: `None` where the
/// path lies in no project, else what reading the project gave.
pub fn detect(outcome: Option<Result<VcsProject, String>>) -> (r: Result<Option<VcsProject>, String>)
    ensures
        detect_spec(outcome, r),
{
    match outcome {
        None => Ok(None),
        Some(Ok(p)) => Ok(Some(p)),
        Some(Err(e)) => {
            if is_missing_program_error(e.as_str()) {
                Ok(None)
            } else {
                Err(e)
            }
        },
    }
}

/// The snapshot of the project a path lies in, from the outcome of reading
/// it: none where the path lies in no project (`outcome` is `None`); else the
/// first error of reading its file statuses and its summary; else the
/// summary, its counts taken from those statuses, together with them.
pub fn status_snapshot(
    outcome: Option<(Result<FileStatuses, String>, Result<VcsProject, String>)>,
) -> (r: Result<Option<VcsStatusSnapshot>, String>)
    ensures
        match outcome {
            None => r == Ok::<Option<VcsStatusSnapshot>, String>(None),
            Some((Err(e), _)) => r == Err::<Option<VcsStatusSnapshot>, String>(e),
            Some((Ok(_), Err(e))) => r == Err::<Option<VcsStatusSnapshot>, String>(e),
            Some((Ok(s), Ok(p))) => r matches Ok(Some(snap)) && snap.statuses == s && project_spec(
                p.root@,
                p.kind,
                opt_chars(p.branch_or_workspace),
                opt_chars(p.remote_name),
                p.ahead,
                p.behind,
                s.entries(),
                snap.project,
            ),
        },
{
    match outcome {
        None => Ok(None),
        Some((statuses, project)) => match statuses {
            Err(e) => Err(e),
            Ok(s) => match project {
                Err(e) => Err(e),
                Ok(p) => {
                    let project = project_from_statuses(
                        p.root.as_str(),
                        p.kind,
                        p.branch_or_workspace,
                        p.remote_name,
                        p.ahead,
                        p.behind,
                        &s,
                    );
                    Ok(Some(VcsStatusSnapshot { project, statuses: s }))
                },
            },
        },
    }
}

/// A message must hold more than white space before anything is saved.
pub fn save(message: &str) -> (r: Result<(), String>)
    ensures
        r is Ok <==> trim(message@).len() > 0,
        r matches Err(e) ==> e@ == "Message is required"@,
{
    if chars_of(trim_str(message).as_str()).len() == 0 {
        Err("Message is required".to_string())
    } else {
        Ok(())
    }
}

/// The index of the job `id` in `jobs`, if any.
pub open spec fn job_index(jobs: Seq<(String, VcsJobState)>, id: Seq<char>) -> Option<int> {
    if exists|i: int| 0 <= i < jobs.len() && (#[trigger] jobs[i]).0@ == id {
        Some(choose|i: int| 0 <= i < jobs.len() && (#[trigger] jobs[i]).0@ == id)
    } else {
        None
    }
}

/// No two jobs share an id.
pub open spec fn job_ids_unique(jobs: Seq<(String, VcsJobState)>) -> bool {
    forall|a: int, b: int| 0 <= a < b < jobs.len() ==> (#[trigger] jobs[a]).0@ != (#[trigger] jobs[b]).0@
}

/// `jobs` with `state` recorded under `id`, replacing what was there.
pub open spec fn jobs_with(jobs: Seq<(String, VcsJobState)>, id: String, state: VcsJobState) -> Seq<(String, VcsJobState)> {
    match job_index(jobs, id@) {
        Some(i) => jobs.update(i, (id, state)),
        None => jobs.push((id, state)),
    }
}

/// What asking for the job `id` answers: not found, not done, or done with
/// its result.
pub open spec fn job_result(jobs: Seq<(String, VcsJobState)>, id: Seq<char>) -> Option<VcsJobUpdate> {
    match job_index(jobs, id) {
        None => None,
        Some(i) => match jobs[i].1 {
            VcsJobState::Pending => Some(VcsJobUpdate { done: false, result: None, error: None }),
            VcsJobState::Done(Ok(snapshot)) => Some(VcsJobUpdate { done: true, result: snapshot, error: None }),
            VcsJobState::Done(Err(e)) => Some(VcsJobUpdate { done: true, result: None, error: Some(e) }),
        },
    }
}

/// The jobs after asking for `id`: a finished job is handed out once and
/// forgotten.
pub open spec fn jobs_after_result(jobs: Seq<(String, VcsJobState)>, id: Seq<char>) -> Seq<(String, VcsJobState)> {
    match job_index(jobs, id) {
        Some(i) => match jobs[i].1 {
            VcsJobState::Done(_) => jobs.remove(i),
            VcsJobState::Pending => jobs,
        },
        None => jobs,
    }
}

proof fn lemma_job_index_unique(jobs: Seq<(String, VcsJobState)>, i: int)
    requires
        job_ids_unique(jobs),
        0 <= i < jobs.len(),
    ensures
        job_index(jobs, jobs[i].0@) == Some(i),
{
    let j = choose|j: int| 0 <= j < jobs.len() && (#[trigger] jobs[j]).0@ == jobs[i].0@;
    if j != i {
        if j < i {
            assert(jobs[j].0@ != jobs[i].0@);
        } else {
            assert(jobs[i].0@ != jobs[j].0@);
        }
    }
}

proof fn lemma_jobs_with_unique(jobs: Seq<(String, VcsJobState)>, id: String, state: VcsJobState)
    requires
        job_ids_unique(jobs),
    ensures
        job_ids_unique(jobs_with(jobs, id, state)),
        job_index(jobs_with(jobs, id, state), id@) matches Some(i) && jobs_with(jobs, id, state)[i] == (id, state),
{
    let r = jobs_with(jobs, id, state);
    match job_index(jobs, id@) {
        Some(i) => {
            assert forall|a: int, b: int| 0 <= a < b < r.len() implies (#[trigger] r[a]).0@ != (#[trigger] r[b]).0@ by {
                if a != i && b != i {
                    assert(jobs[a].0@ != jobs[b].0@);
                } else if a == i {
                    assert(jobs[a].0@ != jobs[b].0@);
                } else {
                    assert(jobs[a].0@ != jobs[b].0@);
                }
            }
            lemma_job_index_unique(r, i);
        },
        None => {
            let n = jobs.len() as int;
            assert forall|a: int, b: int| 0 <= a < b < r.len() implies (#[trigger] r[a]).0@ != (#[trigger] r[b]).0@ by {
                if b < n {
                    assert(jobs[a].0@ != jobs[b].0@);
                } else {
                    assert(r[a] == jobs[a]);
                }
            }
            lemma_job_index_unique(r, n);
        },
    }
}

/// The status jobs started and not yet handed out, and the number of the
/// next one.
pub struct VcsJobs {
    next_id: u64,
    jobs: Vec<(String, VcsJobState)>,
}

impl VcsJobs {
    /// The jobs, each under its id.
    pub closed spec fn jobs(&self) -> Seq<(String, VcsJobState)> {
        self.jobs@
    }

    /// The number the next job gets.
    pub closed spec fn next(&self) -> u64 {
        self.next_id
    }

    /// No two jobs share an id.
    pub open spec fn wf(&self) -> bool {
        job_ids_unique(self.jobs())
    }

    /// No jobs; the first one is numbered 1.
    pub fn new() -> (r: Self)
        ensures
            r.wf(),
            r.jobs().len() == 0,
            r.next() == 1,
    {
        VcsJobs { next_id: 1, jobs: Vec::new() }
    }

    fn record(&mut self, id: String, state: VcsJobState)
        requires
            old(self).wf(),
        ensures
            final(self).wf(),
            final(self).jobs() == jobs_with(old(self).jobs(), id, state),
            final(self).next() == old(self).next(),
    {
        proof {
            lemma_jobs_with_unique(self.jobs@, id, state);
        }
        let mut i: usize = 0;
        while i < self.jobs.len()
            invariant
                i <= self.jobs.len(),
                self.jobs@ == old(self).jobs@,
                self.next_id == old(self).next_id,
                job_ids_unique(self.jobs@),
                forall|k: int| 0 <= k < i ==> (#[trigger] self.jobs@[k]).0@ != id@,
            decreases self.jobs.len() - i,
        {
            if str_eq(self.jobs[i].0.as_str(), id.as_str()) {
                proof {
                    lemma_job_index_unique(self.jobs@, i as int);
                }
                self.jobs.set(i, (id, state));
                return;
            }
            i = i + 1;
        }
        self.jobs.push((id, state));
    }

    /// Starts a status job: it is pending under a fresh number, which the
    /// ticket carries.
    pub fn start_status(&mut self) -> (t: VcsJobTicket)
        requires
            old(self).wf(),
        ensures
            final(self).wf(),
            t.id@ == decimal(old(self).next() as nat),
            final(self).next() == (if old(self).next() == u64::MAX { 0 } else { (old(self).next() + 1) as u64 }),
            exists|id: String| id@ == t.id@ && final(self).jobs() == jobs_with(old(self).jobs(), id, VcsJobState::Pending),
    {
        let n = self.next_id;
        self.next_id = if n == u64::MAX { 0 } else { n + 1 };
        let id = decimal_string(n as u128);
        let ticket = VcsJobTicket { id: id.clone() };
        let ghost id0 = id;
        self.record(id, VcsJobState::Pending);
        assert(final(self).jobs() == jobs_with(old(self).jobs(), id0, VcsJobState::Pending));
        ticket
    }

    /// Records the result of the job `id`.
    pub fn finish(&mut self, id: String, result: Result<Option<VcsStatusSnapshot>, String>)
        requires
            old(self).wf(),
        ensures
            final(self).wf(),
            final(self).next() == old(self).next(),
            final(self).jobs() == jobs_with(old(self).jobs(), id, VcsJobState::Done(result)),
    {
        self.record(id, VcsJobState::Done(result));
    }

    /// What the job `id` has come to. A finished job is handed out once and
    /// then forgotten; an unknown job is an error.
    pub fn status_result(&mut self, id: String) -> (r: Result<VcsJobUpdate, String>)
        requires
            old(self).wf(),
        ensures
            final(self).wf(),
            final(self).next() == old(self).next(),
            final(self).jobs() == jobs_after_result(old(self).jobs(), id@),
            match job_result(old(self).jobs(), id@) {
                Some(u) => r == Ok::<VcsJobUpdate, String>(u),
                None => r matches Err(e) && e@ == "VCS job was not found"@,
            },
    {
        let mut i: usize = 0;
        while i < self.jobs.len()
            invariant
                i <= self.jobs.len(),
                self.jobs@ == old(self).jobs@,
                self.next_id == old(self).next_id,
                job_ids_unique(self.jobs@),
                forall|k: int| 0 <= k < i ==> (#[trigger] self.jobs@[k]).0@ != id@,
            decreases self.jobs.len() - i,
        {
            if str_eq(self.jobs[i].0.as_str(), id.as_str()) {
                proof {
                    lemma_job_index_unique(self.jobs@, i as int);
                }
                let pending = match &self.jobs[i].1 {
                    VcsJobState::Pending => true,
                    VcsJobState::Done(_) => false,
                };
                if pending {
                    return Ok(VcsJobUpdate { done: false, result: None, error: None });
                }
                let ghost before = self.jobs@;
                let (_, state) = self.jobs.remove(i);
                proof {
                    assert forall|a: int, b: int| 0 <= a < b < self.jobs@.len() implies (#[trigger] self.jobs@[a]).0@ != (#[trigger] self.jobs@[b]).0@ by {
                        if b < i {
                            assert(before[a].0@ != before[b].0@);
                        } else if a < i {
                            assert(before[a].0@ != before[b + 1].0@);
                        } else {
                            assert(before[a + 1].0@ != before[b + 1].0@);
                        }
                    }
                }
                return match state {
                    VcsJobState::Done(Ok(snapshot)) => Ok(VcsJobUpdate { done: true, result: snapshot, error: None }),
                    VcsJobState::Done(Err(e)) => Ok(VcsJobUpdate { done: true, result: None, error: Some(e) }),
                    VcsJobState::Pending => Ok(VcsJobUpdate { done: false, result: None, error: None }),
                };
            }
            i = i + 1;
        }
        Err("VCS job was not found".to_string())
    }
}

/// A finished job is handed out once: asking again finds nothing.
pub proof fn lemma_done_job_handed_out_once(jobs: Seq<(String, VcsJobState)>, id: Seq<char>)
    requires
        job_ids_unique(jobs),
        job_result(jobs, id) matches Some(u) && u.done,
    ensures
        job_result(jobs_after_result(jobs, id), id) is None,
{
    let i = job_index(jobs, id)->0;
    let r = jobs_after_result(jobs, id);
    assert(r =~= jobs.remove(i));
    if exists|j: int| 0 <= j < r.len() && (#[trigger] r[j]).0@ == id {
        let j = choose|j: int| 0 <= j < r.len() && (#[trigger] r[j]).0@ == id;
        if j < i {
            assert(jobs[j].0@ != jobs[i].0@);
        } else {
            assert(jobs[i].0@ != jobs[j + 1].0@);
        }
    }
}

/// Asking for a job that is still running changes nothing and says so.
pub proof fn lemma_pending_job_stays(jobs: Seq<(String, VcsJobState)>, id: Seq<char>)
    requires
        job_index(jobs, id) matches Some(i) && jobs[i].1 is Pending,
    ensures
        jobs_after_result(jobs, id) == jobs,
        job_result(jobs, id) == Some(VcsJobUpdate { done: false, result: None, error: None }),
{
}

/// A job just started is found, and not done.
pub proof fn lemma_started_job_pending(jobs: Seq<(String, VcsJobState)>, id: String)
    requires
        job_ids_unique(jobs),
    ensures
        job_result(jobs_with(jobs, id, VcsJobState::Pending), id@) == Some(
            VcsJobUpdate { done: false, result: None, error: None },
        ),
{
    lemma_jobs_with_unique(jobs, id, VcsJobState::Pending);
    let r = jobs_with(jobs, id, VcsJobState::Pending);
    let i = job_index(r, id@)->0;
    lemma_job_index_unique(r, i);
}


/// The life of a status job: once started it is reported not done, and
/// asking keeps it; once finished it is reported done with its result, or
/// its error, once; after that it is not found.
pub proof fn lemma_status_job_cycle(
    jobs: Seq<(String, VcsJobState)>,
    id: String,
    result: Result<Option<VcsStatusSnapshot>, String>,
)
    requires
        job_ids_unique(jobs),
    ensures
        ({
            let started = jobs_with(jobs, id, VcsJobState::Pending);
            let finished = jobs_with(started, id, VcsJobState::Done(result));
            &&& job_result(started, id@) == Some(VcsJobUpdate { done: false, result: None, error: None })
            &&& jobs_after_result(started, id@) == started
            &&& job_result(finished, id@) == Some(
                match result {
                    Ok(snapshot) => VcsJobUpdate { done: true, result: snapshot, error: None },
                    Err(e) => VcsJobUpdate { done: true, result: None, error: Some(e) },
                },
            )
            &&& job_result(jobs_after_result(finished, id@), id@) is None
        }),
{
    let started = jobs_with(jobs, id, VcsJobState::Pending);
    lemma_started_job_pending(jobs, id);
    lemma_jobs_with_unique(jobs, id, VcsJobState::Pending);
    lemma_pending_job_stays(started, id@);
    let finished = jobs_with(started, id, VcsJobState::Done(result));
    lemma_jobs_with_unique(started, id, VcsJobState::Done(result));
    lemma_done_job_handed_out_once(finished, id@);
}

} // verus!
