//! The queue of file operations the front end shows: each operation's kind,
//! status and progress, and the transitions between statuses.
use vstd::prelude::*;
use vstd::pervasive::VecAdditionalExecFns;
use crate::order::{irreflexive, lemma_insert_sorted, sorted_by, transitive};
use crate::text::{all_digits, chars_of, digits_value, is_digit_char, parse_usize_spec, push_char, str_eq, unsigned_digits};

verus! {

broadcast use vstd::string::group_string_axioms;

/// What an operation does.
#[derive(Clone, Copy, Debug, PartialEq, Eq, Structural)]
pub enum OperationType {
    Copy,
    Move,
    Delete,
    Trash,
}

/// Where an operation stands.
#[derive(Clone, Copy, Debug, PartialEq, Eq, Structural)]
pub enum OperationStatus {
    Pending,
    InProgress,
    Paused,
    Completed,
    Failed,
    Cancelled,
}

/// One operation. Its progress is the fraction
/// `progress_done / progress_total`, between 0 and 1.
pub struct Operation {
    pub id: String,
    pub op_type: OperationType,
    pub status: OperationStatus,
    pub sources: Vec<String>,
    pub destination: Option<String>,
    pub progress_done: u64,
    pub progress_total: u64,
    pub current_file: Option<String>,
    pub bytes_processed: u64,
    pub total_bytes: u64,
    pub items_processed: usize,
    pub total_items: usize,
    pub error: Option<String>,
    pub started_at: Option<i64>,
    pub completed_at: Option<i64>,
}

/// An operation as the contracts see it: its strings as character sequences.
pub struct OperationView {
    pub id: Seq<char>,
    pub op_type: OperationType,
    pub status: OperationStatus,
    pub sources: Seq<Seq<char>>,
    pub destination: Option<Seq<char>>,
    pub progress_done: u64,
    pub progress_total: u64,
    pub current_file: Option<Seq<char>>,
    pub bytes_processed: u64,
    pub total_bytes: u64,
    pub items_processed: usize,
    pub total_items: usize,
    pub error: Option<Seq<char>>,
    pub started_at: Option<i64>,
    pub completed_at: Option<i64>,
}

/// The characters of an optional string.
pub open spec fn opt_chars(o: Option<String>) -> Option<Seq<char>> {
    match o {
        Some(s) => Some(s@),
        None => None,
    }
}

impl View for Operation {
    type V = OperationView;

    open spec fn view(&self) -> OperationView {
        OperationView {
            id: self.id@,
            op_type: self.op_type,
            status: self.status,
            sources: self.sources@.map_values(|s: String| s@),
            destination: opt_chars(self.destination),
            progress_done: self.progress_done,
            progress_total: self.progress_total,
            current_file: opt_chars(self.current_file),
            bytes_processed: self.bytes_processed,
            total_bytes: self.total_bytes,
            items_processed: self.items_processed,
            total_items: self.total_items,
            error: opt_chars(self.error),
            started_at: self.started_at,
            completed_at: self.completed_at,
        }
    }
}

/// The operations, newest first, and how many run and wait.
pub struct QueueStatus {
    pub operations: Vec<Operation>,
    pub active_count: usize,
    pub pending_count: usize,
}

/// The operations the front end tracks, one per id.
pub struct OperationsQueue {
    operations: Vec<Operation>,
}

/// A change to one operation.
pub enum OperationUpdate {
    /// Progress: the file being processed and the bytes and items done.
    Progress { current_file: Option<String>, bytes_processed: u64, items_processed: usize },
    /// New totals, measured before the work starts.
    Totals { total_bytes: u64, total_items: usize },
    /// The operation finished at `now`.
    Complete { now: i64 },
    /// The operation failed at `now` with `error`.
    Fail { error: String, now: i64 },
    /// The user cancelled the operation.
    Cancel,
    /// The user paused the operation.
    Pause,
    /// The user resumed the operation.
    Resume,
}

/// The progress of an operation is a fraction between 0 and 1.
pub open spec fn op_wf(op: Operation) -> bool {
    op.progress_total > 0 && op.progress_done <= op.progress_total
}

/// The smaller of `a` and `b`.
pub open spec fn min_u64(a: u64, b: u64) -> u64 {
    if a <= b { a } else { b }
}

/// The smaller of `a` and `b`.
pub open spec fn min_usize(a: usize, b: usize) -> usize {
    if a <= b { a } else { b }
}

/// `op` after the update `u`.
pub open spec fn updated(op: Operation, u: OperationUpdate) -> Operation {
    match u {
        OperationUpdate::Progress { current_file, bytes_processed, items_processed } => {
            let b = min_u64(bytes_processed, op.total_bytes);
            let it = min_usize(items_processed, op.total_items);
            let (d, t) = if op.total_bytes > 0 {
                (b, op.total_bytes)
            } else if op.total_items > 0 {
                (it as u64, op.total_items as u64)
            } else {
                (1u64, 1u64)
            };
            Operation {
                current_file,
                bytes_processed: b,
                items_processed: it,
                progress_done: d,
                progress_total: t,
                ..op
            }
        },
        OperationUpdate::Totals { total_bytes, total_items } => Operation {
            total_bytes,
            total_items,
            progress_done: 0,
            progress_total: 1,
            ..op
        },
        OperationUpdate::Complete { now } => Operation {
            status: OperationStatus::Completed,
            progress_done: 1,
            progress_total: 1,
            bytes_processed: op.total_bytes,
            items_processed: op.total_items,
            current_file: None,
            completed_at: Some(now),
            ..op
        },
        OperationUpdate::Fail { error, now } => if op.status != OperationStatus::Cancelled {
            Operation {
                status: OperationStatus::Failed,
                error: Some(error),
                current_file: None,
                completed_at: Some(now),
                ..op
            }
        } else {
            Operation { current_file: None, completed_at: Some(now), ..op }
        },
        OperationUpdate::Cancel => Operation { status: OperationStatus::Cancelled, ..op },
        OperationUpdate::Pause => if op.status == OperationStatus::InProgress {
            Operation { status: OperationStatus::Paused, ..op }
        } else {
            op
        },
        OperationUpdate::Resume => if op.status == OperationStatus::Paused {
            Operation { status: OperationStatus::InProgress, ..op }
        } else {
            op
        },
    }
}

/// The index of the operation with id `id` in `ops`, if any.
pub open spec fn index_of(ops: Seq<Operation>, id: Seq<char>) -> Option<int> {
    if exists|i: int| 0 <= i < ops.len() && (#[trigger] ops[i]).id@ == id {
        Some(choose|i: int| 0 <= i < ops.len() && (#[trigger] ops[i]).id@ == id)
    } else {
        None
    }
}

/// No two operations in `ops` share an id, and every progress is a fraction
/// between 0 and 1.
pub open spec fn ops_wf(ops: Seq<Operation>) -> bool {
    &&& forall|a: int, b: int| 0 <= a < b < ops.len() ==> (#[trigger] ops[a]).id@ != (#[trigger] ops[b]).id@
    &&& forall|i: int| 0 <= i < ops.len() ==> op_wf(#[trigger] ops[i])
}

/// The operations after `u` is applied to the one with id `id`; nothing
/// changes where there is none.
pub open spec fn ops_updated(ops: Seq<Operation>, id: Seq<char>, u: OperationUpdate) -> Seq<Operation> {
    match index_of(ops, id) {
        Some(i) => ops.update(i, updated(ops[i], u)),
        None => ops,
    }
}

proof fn lemma_updated_wf(op: Operation, u: OperationUpdate)
    requires
        op_wf(op),
    ensures
        op_wf(updated(op, u)),
        updated(op, u).id == op.id,
{
}

proof fn lemma_index_of_unique(ops: Seq<Operation>, i: int)
    requires
        ops_wf(ops),
        0 <= i < ops.len(),
    ensures
        index_of(ops, ops[i].id@) == Some(i),
{
    let j = choose|j: int| 0 <= j < ops.len() && (#[trigger] ops[j]).id@ == ops[i].id@;
    if j != i {
        if j < i {
            assert(ops[j].id@ != ops[i].id@);
        } else {
            assert(ops[i].id@ != ops[j].id@);
        }
    }
}

fn placeholder() -> (op: Operation)
    ensures
        op_wf(op),
{
    Operation {
        id: String::new(),
        op_type: OperationType::Copy,
        status: OperationStatus::Pending,
        sources: Vec::new(),
        destination: None,
        progress_done: 0,
        progress_total: 1,
        current_file: None,
        bytes_processed: 0,
        total_bytes: 0,
        items_processed: 0,
        total_items: 0,
        error: None,
        started_at: None,
        completed_at: None,
    }
}

fn apply(op: Operation, u: OperationUpdate) -> (r: Operation)
    ensures
        r == updated(op, u),
{
    match u {
        OperationUpdate::Progress { current_file, bytes_processed, items_processed } => {
            let b = if bytes_processed <= op.total_bytes { bytes_processed } else { op.total_bytes };
            let it = if items_processed <= op.total_items { items_processed } else { op.total_items };
            let (d, t) = if op.total_bytes > 0 {
                (b, op.total_bytes)
            } else if op.total_items > 0 {
                (it as u64, op.total_items as u64)
            } else {
                (1u64, 1u64)
            };
            Operation {
                current_file,
                bytes_processed: b,
                items_processed: it,
                progress_done: d,
                progress_total: t,
                ..op
            }
        },
        OperationUpdate::Totals { total_bytes, total_items } => Operation {
            total_bytes,
            total_items,
            progress_done: 0,
            progress_total: 1,
            ..op
        },
        OperationUpdate::Complete { now } => {
            let tb = op.total_bytes;
            let ti = op.total_items;
            Operation {
                status: OperationStatus::Completed,
                progress_done: 1,
                progress_total: 1,
                bytes_processed: tb,
                items_processed: ti,
                current_file: None,
                completed_at: Some(now),
                ..op
            }
        },
        OperationUpdate::Fail { error, now } => {
            if op.status != OperationStatus::Cancelled {
                Operation {
                    status: OperationStatus::Failed,
                    error: Some(error),
                    current_file: None,
                    completed_at: Some(now),
                    ..op
                }
            } else {
                Operation { current_file: None, completed_at: Some(now), ..op }
            }
        },
        OperationUpdate::Cancel => Operation { status: OperationStatus::Cancelled, ..op },
        OperationUpdate::Pause => {
            if op.status == OperationStatus::InProgress {
                Operation { status: OperationStatus::Paused, ..op }
            } else {
                op
            }
        },
        OperationUpdate::Resume => {
            if op.status == OperationStatus::Paused {
                Operation { status: OperationStatus::InProgress, ..op }
            } else {
                op
            }
        },
    }
}

impl OperationsQueue {
    /// The operations, in the order they were added.
    pub closed spec fn ops(&self) -> Seq<Operation> {
        self.operations@
    }

    /// Ids are unique and every progress lies between 0 and 1.
    pub closed spec fn wf(&self) -> bool {
        ops_wf(self.operations@)
    }

    /// An empty queue.
    pub fn new() -> (q: Self)
        ensures
            q.wf(),
            q.ops().len() == 0,
    {
        OperationsQueue { operations: Vec::new() }
    }

    fn find(&self, id: &str) -> (r: Option<usize>)
        requires
            self.wf(),
        ensures
            r matches Some(i) ==> index_of(self.ops(), id@) == Some(i as int),
            r is None ==> index_of(self.ops(), id@) is None,
    {
        let mut i: usize = 0;
        while i < self.operations.len()
            invariant
                i <= self.operations.len(),
                ops_wf(self.operations@),
                forall|k: int| 0 <= k < i ==> (#[trigger] self.operations@[k]).id@ != id@,
            decreases self.operations.len() - i,
        {
            if str_eq(self.operations[i].id.as_str(), id) {
                proof {
                    lemma_index_of_unique(self.operations@, i as int);
                }
                return Some(i);
            }
            i = i + 1;
        }
        None
    }

    /// Applies `update` to the operation with id `id`; does nothing where there
    /// is none.
    pub fn update_operation(&mut self, id: &str, update: OperationUpdate)
        requires
            old(self).wf(),
        ensures
            final(self).wf(),
            final(self).ops() == ops_updated(old(self).ops(), id@, update),
    {
        match self.find(id) {
            Some(i) => {
                let mut op = placeholder();
                self.operations.set_and_swap(i, &mut op);
                proof {
                    lemma_updated_wf(op, update);
                }
                let done = apply(op, update);
                self.operations.set(i, done);
                proof {
                    let ops = self.operations@;
                    assert forall|a: int, b: int| 0 <= a < b < ops.len() implies (#[trigger] ops[a]).id@ != (#[trigger] ops[b]).id@ by {
                        assert(old(self).operations@[a].id@ != old(self).operations@[b].id@);
                    }
                    assert forall|k: int| 0 <= k < ops.len() implies op_wf(#[trigger] ops[k]) by {
                        assert(op_wf(old(self).operations@[k]));
                    }
                }
            },
            None => {},
        }
    }

    /// The status of the operation with id `id`.
    pub fn status(&self, id: &str) -> (r: Option<OperationStatus>)
        requires
            self.wf(),
        ensures
            r == (match index_of(self.ops(), id@) {
                Some(i) => Some(self.ops()[i].status),
                None => None,
            }),
    {
        match self.find(id) {
            Some(i) => Some(match self.operations[i].status {
                OperationStatus::Pending => OperationStatus::Pending,
                OperationStatus::InProgress => OperationStatus::InProgress,
                OperationStatus::Paused => OperationStatus::Paused,
                OperationStatus::Completed => OperationStatus::Completed,
                OperationStatus::Failed => OperationStatus::Failed,
                OperationStatus::Cancelled => OperationStatus::Cancelled,
            }),
            None => None,
        }
    }

    /// Records the progress of the operation `id`: the file being processed and
    /// the bytes and items done, each capped at its total.
    pub fn update_progress(&mut self, id: &str, current_file: Option<String>, bytes_processed: u64, items_processed: usize)
        requires
            old(self).wf(),
        ensures
            final(self).wf(),
            final(self).ops() == ops_updated(
                old(self).ops(),
                id@,
                OperationUpdate::Progress { current_file, bytes_processed, items_processed },
            ),
    {
        self.update_operation(id, OperationUpdate::Progress { current_file, bytes_processed, items_processed });
    }

    /// Sets the totals of the operation `id` and resets its progress.
    pub fn set_totals(&mut self, id: &str, total_bytes: u64, total_items: usize)
        requires
            old(self).wf(),
        ensures
            final(self).wf(),
            final(self).ops() == ops_updated(old(self).ops(), id@, OperationUpdate::Totals { total_bytes, total_items }),
    {
        self.update_operation(id, OperationUpdate::Totals { total_bytes, total_items });
    }

    /// Marks the operation `id` completed at `now`.
    pub fn complete_at(&mut self, id: &str, now: i64)
        requires
            old(self).wf(),
        ensures
            final(self).wf(),
            final(self).ops() == ops_updated(old(self).ops(), id@, OperationUpdate::Complete { now }),
    {
        self.update_operation(id, OperationUpdate::Complete { now });
    }

    /// Marks the operation `id` failed with `error` at `now`, unless it was
    /// cancelled.
    pub fn fail_at(&mut self, id: &str, error: String, now: i64)
        requires
            old(self).wf(),
        ensures
            final(self).wf(),
            final(self).ops() == ops_updated(old(self).ops(), id@, OperationUpdate::Fail { error, now }),
    {
        self.update_operation(id, OperationUpdate::Fail { error, now });
    }

    /// Marks the operation `id` completed, now.
    pub fn complete(&mut self, id: &str)
        requires
            old(self).wf(),
        ensures
            final(self).wf(),
            exists|now: i64| final(self).ops() == ops_updated(old(self).ops(), id@, OperationUpdate::Complete { now }),
    {
        let now = now_timestamp();
        self.complete_at(id, now);
    }

    /// Marks the operation `id` failed with `error`, now, unless it was
    /// cancelled.
    pub fn fail(&mut self, id: &str, error: String)
        requires
            old(self).wf(),
        ensures
            final(self).wf(),
            exists|now: i64| final(self).ops() == ops_updated(old(self).ops(), id@, OperationUpdate::Fail { error, now }),
    {
        let now = now_timestamp();
        self.fail_at(id, error, now);
    }
}

/// The operation that `add_operation` records: in progress since `now`,
/// nothing done yet.
pub open spec fn new_operation(
    id: String,
    now: i64,
    op_type: OperationType,
    sources: Vec<String>,
    destination: Option<String>,
    total_bytes: u64,
    total_items: usize,
) -> Operation {
    Operation {
        id,
        op_type,
        status: OperationStatus::InProgress,
        sources,
        destination,
        progress_done: 0,
        progress_total: 1,
        current_file: None,
        bytes_processed: 0,
        total_bytes,
        items_processed: 0,
        total_items,
        error: None,
        started_at: Some(now),
        completed_at: None,
    }
}

/// `ops` with `op` recorded under its id: it replaces the operation of that id
/// where there is one, and comes last otherwise.
pub open spec fn ops_inserted(ops: Seq<Operation>, op: Operation) -> Seq<Operation> {
    match index_of(ops, op.id@) {
        Some(i) => ops.update(i, op),
        None => ops.push(op),
    }
}

/// The operations' views.
pub open spec fn views(ops: Seq<Operation>) -> Seq<OperationView> {
    ops.map_values(|o: Operation| o@)
}

/// `a` started after `b`; an operation with no start comes last.
pub open spec fn started_after(a: OperationView, b: OperationView) -> bool {
    match (a.started_at, b.started_at) {
        (Some(x), Some(y)) => x > y,
        (Some(_), None) => true,
        _ => false,
    }
}

/// How many of `ops` have status `status`.
pub open spec fn count_status(ops: Seq<OperationView>, status: OperationStatus) -> nat
    decreases ops.len(),
{
    if ops.len() == 0 {
        0
    } else {
        count_status(ops.drop_last(), status) + if ops.last().status == status { 1nat } else { 0nat }
    }
}

/// What `get_status` reports of `ops`: all of them, newest first, and how many
/// are in progress and how many wait.
pub open spec fn queue_status_of(ops: Seq<Operation>, r: QueueStatus) -> bool {
    &&& views(r.operations@).to_multiset() == views(ops).to_multiset()
    &&& sorted_by(views(r.operations@), |a: OperationView, b: OperationView| started_after(a, b))
    &&& r.active_count == count_status(views(ops), OperationStatus::InProgress)
    &&& r.pending_count == count_status(views(ops), OperationStatus::Pending)
}

fn copy_opt(o: &Option<String>) -> (r: Option<String>)
    ensures
        r == *o,
{
    match o {
        Some(s) => Some(s.clone()),
        None => None,
    }
}

fn copy_list(v: &Vec<String>) -> (r: Vec<String>)
    ensures
        r@.map_values(|s: String| s@) == v@.map_values(|s: String| s@),
{
    let mut out: Vec<String> = Vec::new();
    let mut i: usize = 0;
    while i < v.len()
        invariant
            i <= v.len(),
            out@ == v@.take(i as int),
        decreases v.len() - i,
    {
        out.push(v[i].clone());
        i = i + 1;
        assert(out@ =~= v@.take(i as int));
    }
    assert(v@.take(v.len() as int) =~= v@);
    out
}

fn copy_op(op: &Operation) -> (r: Operation)
    ensures
        r@ == op@,
{
    Operation {
        id: op.id.clone(),
        op_type: op.op_type,
        status: op.status,
        sources: copy_list(&op.sources),
        destination: copy_opt(&op.destination),
        progress_done: op.progress_done,
        progress_total: op.progress_total,
        current_file: copy_opt(&op.current_file),
        bytes_processed: op.bytes_processed,
        total_bytes: op.total_bytes,
        items_processed: op.items_processed,
        total_items: op.total_items,
        error: copy_opt(&op.error),
        started_at: op.started_at,
        completed_at: op.completed_at,
    }
}

fn later_start(a: &Operation, b: &Operation) -> (r: bool)
    ensures
        r == started_after(a@, b@),
{
    match (a.started_at, b.started_at) {
        (Some(x), Some(y)) => x > y,
        (Some(_), None) => true,
        _ => false,
    }
}

proof fn lemma_started_after_order()
    ensures
        transitive(|a: OperationView, b: OperationView| started_after(a, b)),
        irreflexive(|a: OperationView, b: OperationView| started_after(a, b)),
{
}

impl OperationsQueue {
    /// Records a new operation under `id`, in progress since `now`, and
    /// returns its id. An operation of the same id is replaced.
    pub fn add_operation_with(
        &mut self,
        id: String,
        now: i64,
        op_type: OperationType,
        sources: Vec<String>,
        destination: Option<String>,
        total_bytes: u64,
        total_items: usize,
    ) -> (r: String)
        requires
            old(self).wf(),
        ensures
            final(self).wf(),
            r@ == id@,
            final(self).ops() == ops_inserted(
                old(self).ops(),
                new_operation(id, now, op_type, sources, destination, total_bytes, total_items),
            ),
    {
        let ghost op0 = new_operation(id, now, op_type, sources, destination, total_bytes, total_items);
        let found = self.find(id.as_str());
        let out = id.clone();
        let op = Operation {
            id,
            op_type,
            status: OperationStatus::InProgress,
            sources,
            destination,
            progress_done: 0,
            progress_total: 1,
            current_file: None,
            bytes_processed: 0,
            total_bytes,
            items_processed: 0,
            total_items,
            error: None,
            started_at: Some(now),
            completed_at: None,
        };
        assert(op == op0);
        match found {
            Some(i) => {
                self.operations.set(i, op);
                proof {
                    let ops = self.operations@;
                    assert forall|a: int, b: int| 0 <= a < b < ops.len() implies (#[trigger] ops[a]).id@ != (#[trigger] ops[b]).id@ by {
                        assert(old(self).operations@[a].id@ != old(self).operations@[b].id@);
                    }
                    assert forall|k: int| 0 <= k < ops.len() implies op_wf(#[trigger] ops[k]) by {
                        assert(op_wf(old(self).operations@[k]));
                    }
                }
            },
            None => {
                self.operations.push(op);
                proof {
                    let ops = self.operations@;
                    let n = old(self).operations@.len() as int;
                    assert forall|a: int, b: int| 0 <= a < b < ops.len() implies (#[trigger] ops[a]).id@ != (#[trigger] ops[b]).id@ by {
                        if b < n {
                            assert(old(self).operations@[a].id@ != old(self).operations@[b].id@);
                        } else {
                            assert(ops[a] == old(self).operations@[a]);
                        }
                    }
                    assert forall|k: int| 0 <= k < ops.len() implies op_wf(#[trigger] ops[k]) by {
                        if k < n {
                            assert(op_wf(old(self).operations@[k]));
                        }
                    }
                }
            },
        }
        out
    }

    /// Records a new operation, in progress from now on, under a fresh id made
    /// from the clock, and returns the id.
    pub fn add_operation(
        &mut self,
        op_type: OperationType,
        sources: Vec<String>,
        destination: Option<String>,
        total_bytes: u64,
        total_items: usize,
    ) -> (r: String)
        requires
            old(self).wf(),
        ensures
            final(self).wf(),
            exists|id: String, now: i64|
                id@ == r@ && final(self).ops() == ops_inserted(
                    old(self).ops(),
                    #[trigger] new_operation(id, now, op_type, sources, destination, total_bytes, total_items),
                ),
    {
        let id = operation_id();
        let now = now_timestamp();
        let ghost id0 = id;
        let r = self.add_operation_with(id, now, op_type, sources, destination, total_bytes, total_items);
        assert(final(self).ops() == ops_inserted(
            old(self).ops(),
            new_operation(id0, now, op_type, sources, destination, total_bytes, total_items),
        ));
        r
    }

    /// All operations, newest first, with how many are in progress and how
    /// many wait.
    pub fn get_status(&self) -> (r: QueueStatus)
        requires
            self.wf(),
        ensures
            queue_status_of(self.ops(), r),
    {
        let ghost lt = |a: OperationView, b: OperationView| started_after(a, b);
        let ghost src = self.operations@;
        let mut out: Vec<Operation> = Vec::new();
        let mut active: usize = 0;
        let mut pending: usize = 0;
        let mut i: usize = 0;
        proof {
            lemma_started_after_order();
            assert(views(out@) =~= Seq::<OperationView>::empty());
            assert(views(src).take(0) =~= Seq::<OperationView>::empty());
        }
        while i < self.operations.len()
            invariant
                src == self.operations@,
                i <= src.len(),
                lt == (|a: OperationView, b: OperationView| started_after(a, b)),
                transitive(lt),
                irreflexive(lt),
                sorted_by(views(out@), lt),
                views(out@).to_multiset() == views(src).take(i as int).to_multiset(),
                active == count_status(views(src).take(i as int), OperationStatus::InProgress),
                pending == count_status(views(src).take(i as int), OperationStatus::Pending),
                active <= i,
                pending <= i,
            decreases src.len() - i,
        {
            let x = copy_op(&self.operations[i]);
            let mut p: usize = 0;
            while p < out.len() && !later_start(&x, &out[p])
                invariant
                    p <= out.len(),
                    forall|k: int| 0 <= k < p ==> !started_after(x@, #[trigger] views(out@)[k]),
                decreases out.len() - p,
            {
                p = p + 1;
            }
            let ghost before = views(out@);
            proof {
                lemma_insert_sorted(before, x@, p as int, lt);
            }
            let st = x.status;
            out.insert(p, x);
            proof {
                assert(views(out@) =~= before.insert(p as int, self.operations@[i as int]@));
                let vs = views(src);
                assert(vs.take(i + 1).drop_last() =~= vs.take(i as int));
                assert(vs.take(i + 1) =~= vs.take(i as int).push(vs[i as int]));
                broadcast use vstd::seq_lib::group_to_multiset_ensures;
            }
            if st == OperationStatus::InProgress {
                active = active + 1;
            } else if st == OperationStatus::Pending {
                pending = pending + 1;
            }
            i = i + 1;
        }
        proof {
            assert(views(src).take(src.len() as int) =~= views(src));
        }
        QueueStatus { operations: out, active_count: active, pending_count: pending }
    }
}

/// Marks the operation `id` completed where `result` is a success, failed
/// with its error otherwise, and hands `result` back.
pub fn finish_operation<T>(queue: &mut OperationsQueue, id: &str, result: Result<T, String>) -> (r: Result<T, String>)
    requires
        old(queue).wf(),
    ensures
        final(queue).wf(),
        r == result,
        match result {
            Ok(_) => exists|now: i64| final(queue).ops() == ops_updated(old(queue).ops(), id@, OperationUpdate::Complete { now }),
            Err(e) => exists|now: i64| final(queue).ops() == ops_updated(old(queue).ops(), id@, OperationUpdate::Fail { error: e, now }),
        },
{
    match result {
        Ok(value) => {
            queue.complete(id);
            Ok(value)
        },
        Err(error) => {
            queue.fail(id, error.clone());
            Err(error)
        },
    }
}

/// Cancels the operation `id`; an unknown id is no error.
pub fn cancel_operation(id: String, queue: &mut OperationsQueue) -> (r: Result<(), String>)
    requires
        old(queue).wf(),
    ensures
        final(queue).wf(),
        r is Ok,
        final(queue).ops() == ops_updated(old(queue).ops(), id@, OperationUpdate::Cancel),
{
    queue.update_operation(id.as_str(), OperationUpdate::Cancel);
    Ok(())
}

/// Pauses the operation `id` where it is in progress; an unknown id is no
/// error.
pub fn pause_operation(id: String, queue: &mut OperationsQueue) -> (r: Result<(), String>)
    requires
        old(queue).wf(),
    ensures
        final(queue).wf(),
        r is Ok,
        final(queue).ops() == ops_updated(old(queue).ops(), id@, OperationUpdate::Pause),
{
    queue.update_operation(id.as_str(), OperationUpdate::Pause);
    Ok(())
}

/// Resumes the operation `id` where it is paused; an unknown id is no error.
pub fn resume_operation(id: String, queue: &mut OperationsQueue) -> (r: Result<(), String>)
    requires
        old(queue).wf(),
    ensures
        final(queue).wf(),
        r is Ok,
        final(queue).ops() == ops_updated(old(queue).ops(), id@, OperationUpdate::Resume),
{
    queue.update_operation(id.as_str(), OperationUpdate::Resume);
    Ok(())
}

/// The state of the queue as the front end sees it.
pub fn get_queue_status(queue: &OperationsQueue) -> (r: QueueStatus)
    requires
        queue.wf(),
    ensures
        queue_status_of(queue.ops(), r),
{
    queue.get_status()
}

proof fn lemma_ops_updated_keeps(ops: Seq<Operation>, id: Seq<char>, u: OperationUpdate)
    requires
        ops_wf(ops),
    ensures
        ops_wf(ops_updated(ops, id, u)),
        index_of(ops_updated(ops, id, u), id) == index_of(ops, id),
        ops_updated(ops, id, u).len() == ops.len(),
{
    let r = ops_updated(ops, id, u);
    match index_of(ops, id) {
        Some(i) => {
            lemma_index_of_unique(ops, i);
            lemma_updated_wf(ops[i], u);
            assert forall|a: int, b: int| 0 <= a < b < r.len() implies (#[trigger] r[a]).id@ != (#[trigger] r[b]).id@ by {
                assert(ops[a].id@ != ops[b].id@);
            }
            assert forall|k: int| 0 <= k < r.len() implies op_wf(#[trigger] r[k]) by {
                assert(op_wf(ops[k]));
            }
            lemma_index_of_unique(r, i);
        },
        None => {},
    }
}

/// Pausing an operation in progress and resuming it gives back the queue as
/// it was.
pub proof fn lemma_pause_then_resume(ops: Seq<Operation>, id: Seq<char>)
    requires
        ops_wf(ops),
        index_of(ops, id) matches Some(i) && ops[i].status == OperationStatus::InProgress,
    ensures
        ops_updated(ops_updated(ops, id, OperationUpdate::Pause), id, OperationUpdate::Resume) == ops,
{
    let i = index_of(ops, id)->0;
    lemma_ops_updated_keeps(ops, id, OperationUpdate::Pause);
    let paused = ops_updated(ops, id, OperationUpdate::Pause);
    assert(paused[i].status == OperationStatus::Paused);
    assert(ops_updated(paused, id, OperationUpdate::Resume) =~= ops);
}

/// A cancelled operation stays cancelled through progress, new totals, a
/// failure, a pause and a resume: it is never reported failed.
pub proof fn lemma_cancelled_stays_cancelled(ops: Seq<Operation>, id: Seq<char>, u: OperationUpdate)
    requires
        ops_wf(ops),
        index_of(ops, id) matches Some(i) && ops[i].status == OperationStatus::Cancelled,
        !(u is Complete),
    ensures
        index_of(ops_updated(ops, id, u), id) matches Some(i)
            && ops_updated(ops, id, u)[i].status == OperationStatus::Cancelled,
{
    lemma_ops_updated_keeps(ops, id, u);
}

/// A completed operation has processed all its bytes and items and its
/// progress is whole.
pub proof fn lemma_complete_finishes(ops: Seq<Operation>, id: Seq<char>, now: i64)
    requires
        ops_wf(ops),
        index_of(ops, id) is Some,
    ensures
        ({
            let r = ops_updated(ops, id, OperationUpdate::Complete { now });
            index_of(r, id) matches Some(i) && {
                &&& r[i].status == OperationStatus::Completed
                &&& r[i].bytes_processed == r[i].total_bytes
                &&& r[i].items_processed == r[i].total_items
                &&& r[i].progress_done == r[i].progress_total
                &&& r[i].completed_at == Some(now)
                &&& r[i].current_file is None
            }
        }),
{
    lemma_ops_updated_keeps(ops, id, OperationUpdate::Complete { now });
}

/// After a progress report an operation has done no more than its totals, and
/// its progress is the share of bytes done, else of items done, else whole.
pub proof fn lemma_progress_within_totals(
    ops: Seq<Operation>,
    id: Seq<char>,
    current_file: Option<String>,
    bytes_processed: u64,
    items_processed: usize,
)
    requires
        ops_wf(ops),
        index_of(ops, id) is Some,
    ensures
        ({
            let r = ops_updated(ops, id, OperationUpdate::Progress { current_file, bytes_processed, items_processed });
            index_of(r, id) matches Some(i) && {
                &&& r[i].bytes_processed <= r[i].total_bytes
                &&& r[i].items_processed <= r[i].total_items
                &&& r[i].progress_done <= r[i].progress_total
                &&& r[i].total_bytes > 0 ==> r[i].progress_done == r[i].bytes_processed
                    && r[i].progress_total == r[i].total_bytes
                &&& r[i].total_bytes == 0 && r[i].total_items > 0 ==> r[i].progress_done == r[i].items_processed
                    && r[i].progress_total == r[i].total_items
                &&& r[i].total_bytes == 0 && r[i].total_items == 0 ==> r[i].progress_done == r[i].progress_total
            }
        }),
{
    lemma_ops_updated_keeps(ops, id, OperationUpdate::Progress { current_file, bytes_processed, items_processed });
}

/// New totals are recorded as given: the operation then has exactly those
/// byte and item totals, its progress starts again from nothing, and the
/// other operations are untouched. Progress reported after that is measured
/// against them: the bytes done, never more than the byte total, and where
/// there is a byte total, the progress is the bytes done out of it.
pub proof fn lemma_totals_then_progress(
    ops: Seq<Operation>,
    id: Seq<char>,
    total_bytes: u64,
    total_items: usize,
    current_file: Option<String>,
    bytes_processed: u64,
    items_processed: usize,
)
    requires
        ops_wf(ops),
        index_of(ops, id) is Some,
    ensures
        ({
            let i = index_of(ops, id)->0;
            let t = ops_updated(ops, id, OperationUpdate::Totals { total_bytes, total_items });
            let p = ops_updated(t, id, OperationUpdate::Progress { current_file, bytes_processed, items_processed });
            let done = if bytes_processed <= total_bytes { bytes_processed } else { total_bytes };
            &&& index_of(t, id) == Some(i)
            &&& t[i].total_bytes == total_bytes
            &&& t[i].total_items == total_items
            &&& t[i].progress_done == 0
            &&& t[i].status == ops[i].status
            &&& forall|k: int| 0 <= k < ops.len() && k != i ==> t[k] == ops[k]
            &&& index_of(p, id) == Some(i)
            &&& p[i].total_bytes == total_bytes
            &&& p[i].total_items == total_items
            &&& p[i].bytes_processed == done
            &&& total_bytes > 0 ==> p[i].progress_done == done && p[i].progress_total == total_bytes
        }),
{
    let u = OperationUpdate::Totals { total_bytes, total_items };
    lemma_ops_updated_keeps(ops, id, u);
    let t = ops_updated(ops, id, u);
    lemma_ops_updated_keeps(t, id, OperationUpdate::Progress { current_file, bytes_processed, items_processed });
}

/// A failure is recorded with its message and time, and the operation is no
/// longer working on a file; an operation the user cancelled stays cancelled
/// and keeps its error.
pub proof fn lemma_fail_records(ops: Seq<Operation>, id: Seq<char>, error: String, now: i64)
    requires
        ops_wf(ops),
        index_of(ops, id) is Some,
    ensures
        ({
            let i = index_of(ops, id)->0;
            let r = ops_updated(ops, id, OperationUpdate::Fail { error, now });
            &&& index_of(r, id) == Some(i)
            &&& r[i].completed_at == Some(now)
            &&& r[i].current_file is None
            &&& ops[i].status != OperationStatus::Cancelled ==> r[i].status == OperationStatus::Failed
                && r[i].error == Some(error)
            &&& ops[i].status == OperationStatus::Cancelled ==> r[i].status == OperationStatus::Cancelled
                && r[i].error == ops[i].error
            &&& r[i].total_bytes == ops[i].total_bytes && r[i].bytes_processed == ops[i].bytes_processed
        }),
{
    lemma_ops_updated_keeps(ops, id, OperationUpdate::Fail { error, now });
}

/// Cancelling always cancels; pausing stops only an operation in progress,
/// resuming restarts only a paused one, and otherwise each leaves the
/// operation as it was.
pub proof fn lemma_user_controls(ops: Seq<Operation>, id: Seq<char>)
    requires
        ops_wf(ops),
        index_of(ops, id) is Some,
    ensures
        ({
            let i = index_of(ops, id)->0;
            let c = ops_updated(ops, id, OperationUpdate::Cancel);
            let p = ops_updated(ops, id, OperationUpdate::Pause);
            let q = ops_updated(ops, id, OperationUpdate::Resume);
            &&& c[i].status == OperationStatus::Cancelled
            &&& c[i].bytes_processed == ops[i].bytes_processed
            &&& ops[i].status == OperationStatus::InProgress ==> p[i].status == OperationStatus::Paused
            &&& ops[i].status != OperationStatus::InProgress ==> p[i] == ops[i]
            &&& ops[i].status == OperationStatus::Paused ==> q[i].status == OperationStatus::InProgress
            &&& ops[i].status != OperationStatus::Paused ==> q[i] == ops[i]
            &&& forall|k: int| 0 <= k < ops.len() && k != i ==> c[k] == ops[k] && p[k] == ops[k] && q[k] == ops[k]
        }),
{
    lemma_ops_updated_keeps(ops, id, OperationUpdate::Cancel);
    lemma_ops_updated_keeps(ops, id, OperationUpdate::Pause);
    lemma_ops_updated_keeps(ops, id, OperationUpdate::Resume);
}

proof fn lemma_count_is_filter(s: Seq<OperationView>, st: OperationStatus)
    ensures
        count_status(s, st) == s.filter(|v: OperationView| v.status == st).len(),
        count_status(s, st) <= s.len(),
    decreases s.len(),
{
    reveal_with_fuel(Seq::<_>::filter, 1);
    if s.len() > 0 {
        lemma_count_is_filter(s.drop_last(), st);
    }
}

proof fn lemma_counts_disjoint(s: Seq<OperationView>)
    ensures
        count_status(s, OperationStatus::InProgress) + count_status(s, OperationStatus::Pending) <= s.len(),
    decreases s.len(),
{
    if s.len() > 0 {
        lemma_counts_disjoint(s.drop_last());
    }
}

/// The status report lists every operation once, newest first (an
/// operation that has not started comes after those that have), and counts
/// exactly the operations in progress and those waiting.
pub proof fn lemma_status_report(ops: Seq<Operation>, r: QueueStatus)
    requires
        queue_status_of(ops, r),
    ensures
        r.operations@.len() == ops.len(),
        forall|k: int| 0 <= k < ops.len() ==> exists|i: int| 0 <= i < r.operations@.len() && (#[trigger] r.operations@[i])@ == (#[trigger] ops[k])@,
        forall|i: int, j: int|
            0 <= i < j < r.operations@.len() ==> ((#[trigger] r.operations@[j]).started_at matches Some(y) ==> (
            #[trigger] r.operations@[i]).started_at matches Some(x) && x >= y),
        r.active_count == views(ops).filter(|v: OperationView| v.status == OperationStatus::InProgress).len(),
        r.pending_count == views(ops).filter(|v: OperationView| v.status == OperationStatus::Pending).len(),
        r.active_count + r.pending_count <= ops.len(),
{
    broadcast use vstd::seq_lib::group_to_multiset_ensures;
    let vr = views(r.operations@);
    let vo = views(ops);
    assert(vr.to_multiset().len() == vr.len());
    assert(vo.to_multiset().len() == vo.len());
    assert forall|k: int| 0 <= k < ops.len() implies exists|i: int| 0 <= i < r.operations@.len() && (#[trigger] r.operations@[i])@ == (#[trigger] ops[k])@ by {
        assert(vo[k] == ops[k]@);
        assert(vo.contains(vo[k]));
        assert(vr.to_multiset().count(vo[k]) > 0);
        assert(vr.contains(vo[k]));
        let i = choose|i: int| 0 <= i < vr.len() && vr[i] == vo[k];
        assert(vr[i] == r.operations@[i]@);
    }
    assert forall|i: int, j: int| 0 <= i < j < r.operations@.len() implies ((#[trigger] r.operations@[j]).started_at matches Some(y) ==> (
        #[trigger] r.operations@[i]).started_at matches Some(x) && x >= y) by {
        assert(vr[i] == r.operations@[i]@);
        assert(vr[j] == r.operations@[j]@);
        assert(!started_after(vr[j], vr[i]));
    }
    lemma_count_is_filter(vo, OperationStatus::InProgress);
    lemma_count_is_filter(vo, OperationStatus::Pending);
    lemma_counts_disjoint(vo);
}

/// An added operation can be found under its id, in progress.
pub proof fn lemma_added_is_in_progress(ops: Seq<Operation>, op: Operation)
    requires
        ops_wf(ops),
        op.status == OperationStatus::InProgress,
    ensures
        index_of(ops_inserted(ops, op), op.id@) matches Some(j)
            && ops_inserted(ops, op)[j] == op,
{
    let r = ops_inserted(ops, op);
    match index_of(ops, op.id@) {
        Some(i) => {
            lemma_index_of_unique(ops, i);
            assert(r[i] == op);
            if exists|j: int| 0 <= j < r.len() && j != i && (#[trigger] r[j]).id@ == op.id@ {
                let j = choose|j: int| 0 <= j < r.len() && j != i && (#[trigger] r[j]).id@ == op.id@;
                if j < i {
                    assert(ops[j].id@ != ops[i].id@);
                } else {
                    assert(ops[i].id@ != ops[j].id@);
                }
            }
        },
        None => {
            let n = ops.len() as int;
            assert(r[n] == op);
            if exists|j: int| 0 <= j < n && (#[trigger] r[j]).id@ == op.id@ {
                let j = choose|j: int| 0 <= j < n && (#[trigger] r[j]).id@ == op.id@;
                assert(ops[j].id@ == op.id@);
            }
        },
    }
}

/// The decimal digit `d`.
pub open spec fn digit_char(d: nat) -> char {
    (48 + d) as char
}

/// The decimal notation of `n`.
pub open spec fn decimal(n: nat) -> Seq<char>
    decreases n,
{
    if n < 10 {
        seq![digit_char(n)]
    } else {
        decimal(n / 10).push(digit_char(n % 10))
    }
}

/// The id of an operation made at `nanos` nanoseconds after the epoch:
/// `op-` and the number.
pub open spec fn operation_id_spec(nanos: nat) -> Seq<char> {
    seq!['o', 'p', '-'] + decimal(nanos)
}

proof fn lemma_digit_char(d: nat)
    requires
        d < 10,
    ensures
        is_digit_char(digit_char(d)),
        (digit_char(d) as u32) - 48 == d,
{
    assert(((48 + d) as char) as u32 == 48 + d);
}

proof fn lemma_decimal_digits(n: nat)
    ensures
        all_digits(decimal(n)),
        digits_value(decimal(n)) == n,
        decimal(n).len() > 0,
        decimal(n)[0] != '+',
    decreases n,
{
    if n < 10 {
        lemma_digit_char(n);
        assert(decimal(n).drop_last() =~= Seq::<char>::empty());
        assert(digits_value(Seq::<char>::empty()) == 0);
        assert(decimal(n).last() == digit_char(n));
    } else {
        lemma_decimal_digits(n / 10);
        lemma_digit_char(n % 10);
        let s = decimal(n / 10);
        let t = s.push(digit_char(n % 10));
        assert(t.drop_last() =~= s);
        assert(t.last() == digit_char(n % 10));
        assert(decimal(n) == t);
        assert(digits_value(t) == digits_value(s) * 10 + ((digit_char(n % 10) as u32) - 48));
        assert(n == (n / 10) * 10 + n % 10);
        assert(t[0] == s[0]);
        assert forall|i: int| 0 <= i < t.len() implies is_digit_char(#[trigger] t[i]) by {
            if i < s.len() {
                assert(t[i] == s[i]);
            }
        }
    }
}

/// Reading back the decimal notation of a number gives the number: the ids
/// that jobs and operations are numbered with parse as what they count.
pub proof fn lemma_decimal_parses_back(n: nat)
    requires
        n <= usize::MAX,
    ensures
        parse_usize_spec(decimal(n)) == Some(n as int),
{
    lemma_decimal_digits(n);
    assert(unsigned_digits(decimal(n)) == decimal(n));
}

/// The decimal notation of `n`.
pub fn decimal_string(n: u128) -> (r: String)
    ensures
        r@ == decimal(n as nat),
    decreases n,
{
    let d = (n % 10) as u8;
    let c = (48u8 + d) as char;
    if n < 10 {
        let mut s = String::new();
        push_char(&mut s, c);
        assert(s@ =~= decimal(n as nat));
        s
    } else {
        let mut s = decimal_string(n / 10);
        push_char(&mut s, c);
        s
    }
}

/// The id of an operation made at `nanos` nanoseconds after the epoch.
pub fn operation_id_at(nanos: u128) -> (r: String)
    ensures
        r@ == operation_id_spec(nanos as nat),
{
    let mut s = String::new();
    push_char(&mut s, 'o');
    push_char(&mut s, 'p');
    push_char(&mut s, '-');
    let digits = decimal_string(nanos);
    let mut i: usize = 0;
    let cs = chars_of(digits.as_str());
    while i < cs.len()
        invariant
            i <= cs.len(),
            cs@ == decimal(nanos as nat),
            s@ == seq!['o', 'p', '-'] + cs@.take(i as int),
        decreases cs.len() - i,
    {
        push_char(&mut s, cs[i]);
        i = i + 1;
        assert(s@ =~= seq!['o', 'p', '-'] + cs@.take(i as int));
    }
    assert(cs@.take(cs.len() as int) =~= cs@);
    s
}

/// A fresh operation id made from the clock.
fn operation_id() -> (r: String)
    ensures
        exists|nanos: u128| r@ == operation_id_spec(nanos as nat),
{
    let nanos = now_nanos();
    operation_id_at(nanos)
}

/// The nanoseconds since the Unix epoch (`SystemTime::now`), 0 where the
/// clock reads earlier. It depends on the clock, so nothing is said of it.
#[verifier::external_body]
fn now_nanos() -> u128 {
    std::time::SystemTime::now()
        .duration_since(std::time::UNIX_EPOCH)
        .map(|duration| duration.as_nanos())
        .unwrap_or(0)
}

/// The seconds since the Unix epoch (`SystemTime::now`), 0 where the clock
/// reads earlier. It depends on the clock, so nothing is said of it.
#[verifier::external_body]
fn now_timestamp() -> i64 {
    std::time::SystemTime::now()
        .duration_since(std::time::UNIX_EPOCH)
        .map(|duration| duration.as_secs() as i64)
        .unwrap_or(0)
}

} // verus!
