//! Copying, moving and deleting files as operations of the queue: where each
//! item goes, the totals the progress is measured against, the progress
//! counters, the answer to a pause or a cancel, and what an elevated retry's
//! exit code means.
use vstd::prelude::*;
use crate::operations_queue::{
    decimal, decimal_string, lemma_decimal_parses_back, OperationStatus, OperationUpdate, OperationsQueue, ops_updated,
};
use vstd::relations::injective_on;
use vstd::set_lib::{lemma_int_range, lemma_len_subset, lemma_map_size, set_int_range};
use crate::paths::{extension, file_name, file_stem, join, path_extension, path_file_name, path_file_stem, path_join};
use crate::text::{concat, str_eq};

verus! {

broadcast use vstd::string::group_string_axioms;

/// The sum of the sizes of the items of an operation.
pub open spec fn bytes_total(sizes: Seq<(u64, usize)>) -> int
    decreases sizes.len(),
{
    if sizes.len() == 0 {
        0
    } else {
        bytes_total(sizes.drop_last()) + sizes.last().0
    }
}

/// The number of files and directories of the items of an operation.
pub open spec fn items_total(sizes: Seq<(u64, usize)>) -> int
    decreases sizes.len(),
{
    if sizes.len() == 0 {
        0
    } else {
        items_total(sizes.drop_last()) + sizes.last().1
    }
}

proof fn lemma_totals_prefix(sizes: Seq<(u64, usize)>, i: int)
    requires
        0 <= i <= sizes.len(),
    ensures
        0 <= bytes_total(sizes.take(i)) <= bytes_total(sizes),
        0 <= items_total(sizes.take(i)) <= items_total(sizes),
    decreases sizes.len() - i,
{
    if i < sizes.len() {
        lemma_totals_prefix(sizes, i + 1);
        assert(sizes.take(i + 1).drop_last() =~= sizes.take(i));
        assert(sizes.take(i + 1).last() == sizes[i]);
    } else {
        assert(sizes.take(i) =~= sizes);
    }
    lemma_totals_nonneg(sizes.take(i));
}

proof fn lemma_totals_nonneg(sizes: Seq<(u64, usize)>)
    ensures
        0 <= bytes_total(sizes),
        0 <= items_total(sizes),
    decreases sizes.len(),
{
    if sizes.len() > 0 {
        lemma_totals_nonneg(sizes.drop_last());
    }
}

/// The totals an operation's progress is measured against, from the size and
/// the number of files and directories of each item: all the bytes, and all
/// the items but at least one.
pub fn operation_totals(sizes: &Vec<(u64, usize)>) -> (r: (u64, usize))
    requires
        bytes_total(sizes@) <= u64::MAX,
        items_total(sizes@) <= usize::MAX,
    ensures
        r.0 == bytes_total(sizes@),
        r.1 == (if items_total(sizes@) == 0 { 1 } else { items_total(sizes@) }),
{
    let mut bytes: u64 = 0;
    let mut items: usize = 0;
    let mut i: usize = 0;
    assert(sizes@.take(0) =~= Seq::<(u64, usize)>::empty());
    while i < sizes.len()
        invariant
            i <= sizes.len(),
            bytes == bytes_total(sizes@.take(i as int)),
            items == items_total(sizes@.take(i as int)),
            bytes_total(sizes@) <= u64::MAX,
            items_total(sizes@) <= usize::MAX,
        decreases sizes.len() - i,
    {
        proof {
            lemma_totals_prefix(sizes@, i + 1);
            assert(sizes@.take(i + 1).drop_last() =~= sizes@.take(i as int));
            assert(sizes@.take(i + 1).last() == sizes@[i as int]);
        }
        bytes = bytes + sizes[i].0;
        items = items + sizes[i].1;
        i = i + 1;
    }
    assert(sizes@.take(i as int) =~= sizes@);
    (bytes, if items == 0 { 1 } else { items })
}

/// How an item's name splits for numbering: its stem, else its whole name,
/// and its extension with its dot, else nothing.
pub open spec fn name_parts(src: Seq<char>, name: Seq<char>) -> (Seq<char>, Seq<char>) {
    (
        match path_file_stem(src) {
            Some(s) => s,
            None => name,
        },
        match path_extension(src) {
            Some(e) => "."@ + e,
            None => Seq::empty(),
        },
    )
}

/// Where an item `src` copied or moved into `destination` goes first: under its
/// own name. It also gives the stem and extension that later tries number.
pub fn destination_path(src: &str, destination: &str) -> (r: Result<(String, String, String), String>)
    ensures
        match path_file_name(src@) {
            Some(name) => r matches Ok((target, stem, ext)) && target@ == path_join(destination@, name) && (stem@, ext@)
                == name_parts(src@, name),
            None => r matches Err(e) && e@ == "Invalid source path"@,
        },
{
    let name = match file_name(src) {
        Some(n) => n,
        None => return Err("Invalid source path".to_string()),
    };
    let target = join(destination, name.as_str());
    let stem = match file_stem(src) {
        Some(s) => s,
        None => name,
    };
    let ext = match extension(src) {
        Some(e) => concat(".", e.as_str()),
        None => String::new(),
    };
    Ok((target, stem, ext))
}

/// The `counter`-th place an item may go where its own name is taken:
/// `stem (counter)ext` in `destination`.
pub fn numbered_destination(destination: &str, stem: &str, ext: &str, counter: u64) -> (r: String)
    ensures
        r@ == path_join(destination@, stem@ + " ("@ + decimal(counter as nat) + ")"@ + ext@),
{
    let n = decimal_string(counter as u128);
    let a = concat(stem, " (");
    let b = concat(a.as_str(), n.as_str());
    let c = concat(b.as_str(), ")");
    let d = concat(c.as_str(), ext);
    join(destination, d.as_str())
}

/// The name tried the `k`-th time an item's own name is taken:
/// `stem (k)ext`.
pub open spec fn numbered_name(stem: Seq<char>, ext: Seq<char>, k: nat) -> Seq<char> {
    stem + " ("@ + decimal(k) + ")"@ + ext
}

proof fn lemma_numbered_injective(stem: Seq<char>, ext: Seq<char>, a: nat, b: nat)
    requires
        a <= usize::MAX,
        b <= usize::MAX,
        numbered_name(stem, ext, a) == numbered_name(stem, ext, b),
    ensures
        a == b,
{
    let pre = stem + " ("@;
    let post = ")"@ + ext;
    let sa = numbered_name(stem, ext, a);
    assert(sa =~= pre + decimal(a) + post);
    assert(numbered_name(stem, ext, b) =~= pre + decimal(b) + post);
    assert(decimal(a) =~= sa.subrange(pre.len() as int, sa.len() - post.len()));
    assert(decimal(b) =~= sa.subrange(pre.len() as int, sa.len() - post.len()));
    lemma_decimal_parses_back(a);
    lemma_decimal_parses_back(b);
}

/// Among the first `taken.len() + 1` numbered names at least one is free.
proof fn lemma_free_number(stem: Seq<char>, ext: Seq<char>, taken: Seq<Seq<char>>)
    requires
        taken.len() < usize::MAX,
    ensures
        exists|j: int| 1 <= j <= taken.len() + 1 && !taken.contains(#[trigger] numbered_name(stem, ext, j as nat)),
{
    let n = taken.len() as int;
    if forall|j: int| 1 <= j <= n + 1 ==> taken.contains(#[trigger] numbered_name(stem, ext, j as nat)) {
        let x = set_int_range(1, n + 2);
        let f = |j: int| numbered_name(stem, ext, j as nat);
        lemma_int_range(1, n + 2);
        assert forall|a: int, b: int| x.contains(a) && x.contains(b) && #[trigger] f(a) == #[trigger] f(b) implies a == b by {
            lemma_numbered_injective(stem, ext, a as nat, b as nat);
        }
        assert(injective_on(f, x));
        lemma_map_size(x, x.map(f), f);
        assert forall|y: Seq<char>| x.map(f).contains(y) implies taken.to_set().contains(y) by {
            let a = choose|a: int| x.contains(a) && f(a) == y;
            assert(taken.contains(numbered_name(stem, ext, a as nat)));
        }
        assert(x.map(f).subset_of(taken.to_set()));
        taken.lemma_cardinality_of_set();
        lemma_len_subset(x.map(f), taken.to_set());
        assert(false);
    }
}

/// The name `name` is among `taken`.
fn name_taken(taken: &Vec<String>, name: &str) -> (b: bool)
    ensures
        b == taken@.map_values(|s: String| s@).contains(name@),
{
    let ghost tk = taken@.map_values(|s: String| s@);
    let mut i: usize = 0;
    while i < taken.len()
        invariant
            i <= taken.len(),
            tk == taken@.map_values(|s: String| s@),
            forall|j: int| 0 <= j < i ==> tk[j] != name@,
        decreases taken.len() - i,
    {
        if str_eq(taken[i].as_str(), name) {
            assert(tk[i as int] == name@);
            return true;
        }
        i = i + 1;
    }
    false
}

fn numbered_name_string(stem: &str, ext: &str, k: u64) -> (r: String)
    ensures
        r@ == numbered_name(stem@, ext@, k as nat),
{
    let n = decimal_string(k as u128);
    let a = concat(stem, " (");
    let b = concat(a.as_str(), n.as_str());
    let c = concat(b.as_str(), ")");
    concat(c.as_str(), ext)
}

/// `target` is where the item `src` goes in `destination`, which holds the
/// names `tk`: its own name where that is free, else `stem (k)ext` for the
/// least `k >= 1` that is free.
pub open spec fn free_target(src: Seq<char>, destination: Seq<char>, tk: Seq<Seq<char>>, target: Seq<char>) -> bool {
    match path_file_name(src) {
        Some(name) => {
            let (stem, ext) = name_parts(src, name);
            if !tk.contains(name) {
                target == path_join(destination, name)
            } else {
                exists|k: nat|
                    #![trigger numbered_name(stem, ext, k)]
                    1 <= k && target == path_join(destination, numbered_name(stem, ext, k)) && !tk.contains(
                        numbered_name(stem, ext, k),
                    ) && forall|j: nat| 1 <= j < k ==> tk.contains(#[trigger] numbered_name(stem, ext, j))
            }
        },
        None => false,
    }
}

/// Where an item `src` copied or moved into `destination` goes, given the
/// names `taken` that `destination` already holds: under its own name where
/// that is free, else under `stem (k)ext` for the least `k >= 1` that is free;
/// an error where `src` has no file name.
pub fn free_destination(src: &str, destination: &str, taken: &Vec<String>) -> (r: Result<String, String>)
    requires
        taken@.len() < usize::MAX,
    ensures
        match path_file_name(src@) {
            Some(name) => r matches Ok(target) && free_target(
                src@,
                destination@,
                taken@.map_values(|s: String| s@),
                target@,
            ),
            None => r matches Err(e) && e@ == "Invalid source path"@,
        },
{
    let (first, stem, ext) = match destination_path(src, destination) {
        Ok(t) => t,
        Err(e) => return Err(e),
    };
    let ghost tk = taken@.map_values(|s: String| s@);
    let ghost name = path_file_name(src@)->0;
    let own = match file_name(src) {
        Some(n) => n,
        None => return Err("Invalid source path".to_string()),
    };
    if !name_taken(taken, own.as_str()) {
        return Ok(first);
    }
    proof {
        lemma_free_number(stem@, ext@, tk);
    }
    let mut k: u64 = 1;
    loop
        invariant
            1 <= k <= taken@.len() + 1,
            taken@.len() < usize::MAX,
            tk == taken@.map_values(|s: String| s@),
            tk.contains(name),
            path_file_name(src@) == Some(name),
            (stem@, ext@) == name_parts(src@, name),
            forall|j: nat| 1 <= j < k ==> tk.contains(#[trigger] numbered_name(stem@, ext@, j)),
            exists|j: int| 1 <= j <= tk.len() + 1 && !tk.contains(#[trigger] numbered_name(stem@, ext@, j as nat)),
        decreases taken@.len() + 1 - k,
    {
        let candidate = numbered_name_string(stem.as_str(), ext.as_str(), k);
        if !name_taken(taken, candidate.as_str()) {
            let target = join(destination, candidate.as_str());
            proof {
                let kk = k as nat;
                assert(1 <= kk && target@ == path_join(destination@, numbered_name(stem@, ext@, kk)) && !tk.contains(
                    numbered_name(stem@, ext@, kk),
                ) && forall|j: nat| 1 <= j < kk ==> tk.contains(#[trigger] numbered_name(stem@, ext@, j)));
                assert(tk.contains(name));
                let (st, ex) = name_parts(src@, name);
                assert(st == stem@ && ex == ext@);
                assert(exists|k: nat|
                    #![trigger numbered_name(st, ex, k)]
                    1 <= k && target@ == path_join(destination@, numbered_name(st, ex, k)) && !tk.contains(
                        numbered_name(st, ex, k),
                    ) && forall|j: nat| 1 <= j < k ==> tk.contains(#[trigger] numbered_name(st, ex, j)));
            }
            return Ok(target);
        }
        proof {
            if k == taken@.len() + 1 {
                let j = choose|j: int| 1 <= j <= tk.len() + 1 && !tk.contains(#[trigger] numbered_name(stem@, ext@, j as nat));
                if j < k {
                    assert(tk.contains(numbered_name(stem@, ext@, j as nat)));
                }
                assert(false);
            }
        }
        k = k + 1;
    }
}

/// Where each of the items `sources` copied or moved into `destination`
/// goes, given the names `taken` that `destination` holds before the
/// operation: each as `free_destination` places it, in order; an error
/// where one has no file name.
pub fn plan_destinations(sources: &Vec<String>, destination: &str, taken: &Vec<String>) -> (r: Result<Vec<String>, String>)
    requires
        taken@.len() < usize::MAX,
    ensures
        r is Ok <==> forall|i: int| 0 <= i < sources@.len() ==> path_file_name(#[trigger] sources@[i]@) is Some,
        r matches Ok(targets) ==> targets@.len() == sources@.len() && forall|i: int|
            0 <= i < sources@.len() ==> free_target(
                #[trigger] sources@[i]@,
                destination@,
                taken@.map_values(|s: String| s@),
                targets@[i]@,
            ),
        r matches Err(e) ==> e@ == "Invalid source path"@,
{
    let mut targets: Vec<String> = Vec::new();
    let mut i: usize = 0;
    while i < sources.len()
        invariant
            i <= sources.len(),
            taken@.len() < usize::MAX,
            targets@.len() == i,
            forall|k: int| 0 <= k < i ==> path_file_name(#[trigger] sources@[k]@) is Some,
            forall|k: int|
                0 <= k < i ==> free_target(
                    #[trigger] sources@[k]@,
                    destination@,
                    taken@.map_values(|s: String| s@),
                    targets@[k]@,
                ),
        decreases sources.len() - i,
    {
        match free_destination(sources[i].as_str(), destination, taken) {
            Ok(t) => {
                targets.push(t);
            },
            Err(e) => {
                assert(path_file_name(sources@[i as int]@) is None);
                return Err(e);
            },
        }
        i = i + 1;
    }
    Ok(targets)
}

/// How a direct attempt at a file operation ended.
#[derive(Clone, Copy, Debug, PartialEq, Eq, Structural)]
pub enum Attempt {
    Succeeded,
    PermissionDenied,
    Failed,
}

/// What follows an attempt at a file operation.
#[derive(Clone, Copy, Debug, PartialEq, Eq, Structural)]
pub enum NextStep {
    Done,
    Elevate,
    Fallback,
    Fail,
}

/// What follows a direct attempt: nothing more where it succeeded; a retry
/// with elevated rights (`pkexec`) where permission was denied; where it
/// failed otherwise, the operation's own fallback where it has one (a move
/// copies and then deletes), else the error.
pub fn after_attempt(attempt: Attempt, has_fallback: bool) -> (r: NextStep)
    ensures
        r == (match attempt {
            Attempt::Succeeded => NextStep::Done,
            Attempt::PermissionDenied => NextStep::Elevate,
            Attempt::Failed => if has_fallback {
                NextStep::Fallback
            } else {
                NextStep::Fail
            },
        }),
{
    match attempt {
        Attempt::Succeeded => NextStep::Done,
        Attempt::PermissionDenied => NextStep::Elevate,
        Attempt::Failed => if has_fallback {
            NextStep::Fallback
        } else {
            NextStep::Fail
        },
    }
}

/// What a worker does before each step of an operation: go on, wait while it
/// is paused, or stop where it was cancelled.
#[derive(Clone, Copy, Debug, PartialEq, Eq, Structural)]
pub enum GuardAction {
    Proceed,
    Wait,
    Cancel,
}

/// The progress of one operation: the bytes and items done so far.
pub struct OperationTracker {
    pub id: String,
    pub bytes_processed: u64,
    pub items_processed: usize,
}

impl OperationTracker {
    /// Nothing done yet of the operation `id`.
    pub fn new(id: String) -> (t: Self)
        ensures
            t.id == id,
            t.bytes_processed == 0,
            t.items_processed == 0,
    {
        OperationTracker { id, bytes_processed: 0, items_processed: 0 }
    }

    /// What to do before the next step, from the operation's status.
    pub fn guard_action(&self, queue: &OperationsQueue) -> (r: GuardAction)
        requires
            queue.wf(),
        ensures
            r == guard_for(
                match crate::operations_queue::index_of(queue.ops(), self.id@) {
                    Some(i) => Some(queue.ops()[i].status),
                    None => None,
                },
            ),
    {
        guard(queue.status(self.id.as_str()))
    }

    /// Reports the file being worked on with the counts so far.
    pub fn set_file(&self, queue: &mut OperationsQueue, path: &str)
        requires
            old(queue).wf(),
        ensures
            final(queue).wf(),
            exists|f: String|
                f@ == path@ && final(queue).ops() == ops_updated(
                    old(queue).ops(),
                    self.id@,
                    #[trigger] progress_update(Some(f), self.bytes_processed, self.items_processed),
                ),
    {
        let f = path.to_string();
        let ghost fv = f;
        queue.update_progress(self.id.as_str(), Some(f), self.bytes_processed, self.items_processed);
        assert(final(queue).ops() == ops_updated(
            old(queue).ops(),
            self.id@,
            progress_update(Some(fv), self.bytes_processed, self.items_processed),
        ));
    }

    /// Counts `bytes` more done, without overflowing, and reports `path`.
    pub fn add_bytes(&mut self, queue: &mut OperationsQueue, bytes: u64, path: &str)
        requires
            old(queue).wf(),
        ensures
            final(queue).wf(),
            final(self).id == old(self).id,
            final(self).items_processed == old(self).items_processed,
            final(self).bytes_processed == (if old(self).bytes_processed + bytes > u64::MAX {
                u64::MAX
            } else {
                (old(self).bytes_processed + bytes) as u64
            }),
            exists|f: String|
                f@ == path@ && final(queue).ops() == ops_updated(
                    old(queue).ops(),
                    old(self).id@,
                    #[trigger] progress_update(Some(f), final(self).bytes_processed, final(self).items_processed),
                ),
    {
        self.bytes_processed = self.bytes_processed.saturating_add(bytes);
        self.set_file(queue, path);
    }

    /// Counts one more item done, without overflowing, and reports `path`.
    pub fn add_item(&mut self, queue: &mut OperationsQueue, path: &str)
        requires
            old(queue).wf(),
        ensures
            final(queue).wf(),
            final(self).id == old(self).id,
            final(self).bytes_processed == old(self).bytes_processed,
            final(self).items_processed == (if old(self).items_processed == usize::MAX {
                usize::MAX
            } else {
                (old(self).items_processed + 1) as usize
            }),
            exists|f: String|
                f@ == path@ && final(queue).ops() == ops_updated(
                    old(queue).ops(),
                    old(self).id@,
                    #[trigger] progress_update(Some(f), final(self).bytes_processed, final(self).items_processed),
                ),
    {
        self.items_processed = self.items_processed.saturating_add(1);
        self.set_file(queue, path);
    }
}

/// A progress report of the file `f` with these counts.
pub open spec fn progress_update(f: Option<String>, bytes: u64, items: usize) -> OperationUpdate {
    OperationUpdate::Progress { current_file: f, bytes_processed: bytes, items_processed: items }
}

/// What to do before a step of an operation with status `status`.
pub open spec fn guard_for(status: Option<OperationStatus>) -> GuardAction {
    match status {
        Some(OperationStatus::Cancelled) => GuardAction::Cancel,
        Some(OperationStatus::Paused) => GuardAction::Wait,
        _ => GuardAction::Proceed,
    }
}

/// What to do before a step of an operation with status `status`: a
/// cancelled one stops, a paused one waits, any other goes on.
pub fn guard(status: Option<OperationStatus>) -> (r: GuardAction)
    ensures
        r == guard_for(status),
{
    match status {
        Some(OperationStatus::Cancelled) => GuardAction::Cancel,
        Some(OperationStatus::Paused) => GuardAction::Wait,
        _ => GuardAction::Proceed,
    }
}

/// The error of a step that found its operation cancelled.
pub fn cancelled_error() -> (r: String)
    ensures
        r@ == "Operation cancelled"@,
{
    "Operation cancelled".to_string()
}

/// The decimal notation of `n`, with a minus sign where it is negative.
pub open spec fn signed_decimal(n: int) -> Seq<char> {
    if n < 0 {
        "-"@ + decimal((-n) as nat)
    } else {
        decimal(n as nat)
    }
}

/// The decimal notation of `n`.
pub fn signed_decimal_string(n: i64) -> (r: String)
    ensures
        r@ == signed_decimal(n as int),
{
    if n < 0 {
        let m: u128 = (0i128 - (n as i128)) as u128;
        let d = decimal_string(m);
        concat("-", d.as_str())
    } else {
        decimal_string(n as u128)
    }
}

/// What the exit code of an elevated command (`pkexec`) means: 0 is
/// success, 126 a cancelled and 127 a failed authentication, any other code
/// a failure of the command, and none an interruption.
pub open spec fn pkexec_outcome(code: Option<i32>) -> Result<(), Seq<char>> {
    match code {
        Some(0) => Ok(()),
        Some(126) => Err("Authentication cancelled"@),
        Some(127) => Err("Authentication failed or unavailable"@),
        Some(c) => Err("Elevated operation failed with exit code "@ + signed_decimal(c as int)),
        None => Err("Elevated operation was interrupted"@),
    }
}

/// The result of an elevated command from its exit code.
pub fn pkexec_result(code: Option<i32>) -> (r: Result<(), String>)
    ensures
        match pkexec_outcome(code) {
            Ok(()) => r is Ok,
            Err(m) => r matches Err(e) && e@ == m,
        },
{
    match code {
        Some(0) => Ok(()),
        Some(126) => Err("Authentication cancelled".to_string()),
        Some(127) => Err("Authentication failed or unavailable".to_string()),
        Some(c) => {
            let d = signed_decimal_string(c as i64);
            Err(concat("Elevated operation failed with exit code ", d.as_str()))
        },
        None => Err("Elevated operation was interrupted".to_string()),
    }
}

/// The error of an elevated command that could not be started.
pub fn pkexec_start_error(error: &str) -> (r: String)
    ensures
        r@ == "Could not start privilege prompt: "@ + error@,
{
    concat("Could not start privilege prompt: ", error)
}

/// The system tools an elevated retry may run.
pub open spec fn known_tool(program: Seq<char>) -> bool {
    program == "cp"@ || program == "mv"@ || program == "rm"@ || program == "touch"@ || program == "mkdir"@
        || program == "gio"@
}

/// Where a system tool may be installed, in the order to look: `/usr/bin`
/// then `/bin`; nowhere for a tool that is not allowed.
pub fn program_candidates(program: &str) -> (r: Vec<String>)
    ensures
        known_tool(program@) ==> r@.len() == 2 && r@[0]@ == "/usr/bin/"@ + program@ && r@[1]@ == "/bin/"@
            + program@,
        !known_tool(program@) ==> r@.len() == 0,
{
    let mut r: Vec<String> = Vec::new();
    if str_eq(program, "cp") || str_eq(program, "mv") || str_eq(program, "rm") || str_eq(program, "touch")
        || str_eq(program, "mkdir") || str_eq(program, "gio") {
        r.push(concat("/usr/bin/", program));
        r.push(concat("/bin/", program));
    }
    r
}

/// The path of the system tool `program` that an elevated operation runs:
/// only `cp`, `mv`, `rm`, `touch`, `mkdir` and `gio` are run, from
/// `/usr/bin` where it is there (`in_usr_bin`), else from `/bin`
/// (`in_bin`); any other tool, or one in neither place, is an error naming it.
pub fn program_path(program: &str, in_usr_bin: bool, in_bin: bool) -> (r: Result<String, String>)
    ensures
        known_tool(program@) && in_usr_bin ==> (r matches Ok(p) && p@ == "/usr/bin/"@ + program@),
        known_tool(program@) && !in_usr_bin && in_bin ==> (r matches Ok(p) && p@ == "/bin/"@ + program@),
        !known_tool(program@) || (!in_usr_bin && !in_bin) ==> (r matches Err(e) && e@
            == "Required system tool is missing: "@ + program@),
{
    let places = program_candidates(program);
    if places.len() == 2 {
        if in_usr_bin {
            return Ok(places[0].clone());
        }
        if in_bin {
            return Ok(places[1].clone());
        }
    }
    Err(concat("Required system tool is missing: ", program))
}

/// The error of a copy or move into something that is not a directory.
pub fn destination_error() -> (r: String)
    ensures
        r@ == "Destination must be a directory"@,
{
    "Destination must be a directory".to_string()
}

} // verus!
