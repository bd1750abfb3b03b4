use rover::operations_queue::{
    cancel_operation, decimal_string, finish_operation, get_queue_status, operation_id_at, pause_operation,
    resume_operation, OperationStatus, OperationType, OperationsQueue,
};

fn queue_with(ids: &[(&str, i64)]) -> OperationsQueue {
    let mut q = OperationsQueue::new();
    for (id, now) in ids {
        q.add_operation_with(id.to_string(), *now, OperationType::Copy, vec!["/a".to_string()], None, 100, 4);
    }
    q
}

#[test]
fn added_operation_is_in_progress() {
    let mut q = OperationsQueue::new();
    let id = q.add_operation_with("op-1".to_string(), 10, OperationType::Move, vec![], Some("/d".to_string()), 0, 1);
    assert_eq!(id, "op-1");
    assert_eq!(q.status("op-1"), Some(OperationStatus::InProgress));
    assert_eq!(q.status("op-2"), None);
}

#[test]
fn add_operation_makes_clock_id() {
    let mut q = OperationsQueue::new();
    let id = q.add_operation(OperationType::Trash, vec!["/x".to_string()], None, 0, 1);
    assert!(id.starts_with("op-"));
    assert!(id[3..].chars().all(|c| c.is_ascii_digit()));
    assert_eq!(q.status(&id), Some(OperationStatus::InProgress));
}

#[test]
fn pause_then_resume_restores_in_progress() {
    let mut q = queue_with(&[("a", 1)]);
    assert!(pause_operation("a".to_string(), &mut q).is_ok());
    assert_eq!(q.status("a"), Some(OperationStatus::Paused));
    assert!(resume_operation("a".to_string(), &mut q).is_ok());
    assert_eq!(q.status("a"), Some(OperationStatus::InProgress));
}

#[test]
fn pause_only_affects_running_operation() {
    let mut q = queue_with(&[("a", 1)]);
    q.complete_at("a", 5);
    pause_operation("a".to_string(), &mut q).unwrap();
    assert_eq!(q.status("a"), Some(OperationStatus::Completed));
    resume_operation("a".to_string(), &mut q).unwrap();
    assert_eq!(q.status("a"), Some(OperationStatus::Completed));
}

#[test]
fn cancelled_operation_is_not_marked_failed() {
    let mut q = queue_with(&[("a", 1)]);
    cancel_operation("a".to_string(), &mut q).unwrap();
    q.fail_at("a", "disk full".to_string(), 9);
    assert_eq!(q.status("a"), Some(OperationStatus::Cancelled));
    let s = q.get_status();
    assert_eq!(s.operations[0].error, None);
    assert_eq!(s.operations[0].completed_at, Some(9));
}

#[test]
fn failure_records_error() {
    let mut q = queue_with(&[("a", 1)]);
    q.fail_at("a", "boom".to_string(), 7);
    let s = q.get_status();
    assert_eq!(s.operations[0].status, OperationStatus::Failed);
    assert_eq!(s.operations[0].error.as_deref(), Some("boom"));
    assert_eq!(s.operations[0].current_file, None);
}

#[test]
fn complete_finishes_all_work() {
    let mut q = queue_with(&[("a", 1)]);
    q.update_progress("a", Some("/a/f".to_string()), 30, 1);
    q.complete_at("a", 20);
    let s = q.get_status();
    let op = &s.operations[0];
    assert_eq!(op.status, OperationStatus::Completed);
    assert_eq!(op.bytes_processed, 100);
    assert_eq!(op.items_processed, 4);
    assert_eq!(op.progress_done, op.progress_total);
    assert_eq!(op.completed_at, Some(20));
    assert_eq!(op.current_file, None);
}

#[test]
fn progress_is_capped_at_totals() {
    let mut q = queue_with(&[("a", 1)]);
    q.update_progress("a", Some("/a/f".to_string()), 500, 9);
    let s = q.get_status();
    let op = &s.operations[0];
    assert_eq!(op.bytes_processed, 100);
    assert_eq!(op.items_processed, 4);
    assert_eq!((op.progress_done, op.progress_total), (100, 100));
    assert_eq!(op.current_file.as_deref(), Some("/a/f"));
}

#[test]
fn progress_by_items_then_whole() {
    let mut q = OperationsQueue::new();
    q.add_operation_with("i".to_string(), 1, OperationType::Delete, vec![], None, 0, 4);
    q.update_progress("i", None, 0, 1);
    let s = q.get_status();
    assert_eq!((s.operations[0].progress_done, s.operations[0].progress_total), (1, 4));
    q.set_totals("i", 0, 0);
    let s = q.get_status();
    assert_eq!((s.operations[0].progress_done, s.operations[0].progress_total), (0, 1));
    q.update_progress("i", None, 0, 0);
    let s = q.get_status();
    assert_eq!((s.operations[0].progress_done, s.operations[0].progress_total), (1, 1));
}

#[test]
fn unknown_id_changes_nothing() {
    let mut q = queue_with(&[("a", 1)]);
    cancel_operation("zzz".to_string(), &mut q).unwrap();
    q.complete_at("zzz", 3);
    assert_eq!(q.status("a"), Some(OperationStatus::InProgress));
    assert_eq!(q.get_status().operations.len(), 1);
}

#[test]
fn status_lists_newest_first_with_counts() {
    let mut q = queue_with(&[("old", 1), ("new", 30), ("mid", 10)]);
    pause_operation("mid".to_string(), &mut q).unwrap();
    let s = get_queue_status(&q);
    let ids: Vec<&str> = s.operations.iter().map(|o| o.id.as_str()).collect();
    assert_eq!(ids, vec!["new", "mid", "old"]);
    assert_eq!(s.active_count, 2);
    assert_eq!(s.pending_count, 0);
}

#[test]
fn same_id_replaces_operation() {
    let mut q = queue_with(&[("a", 1)]);
    q.complete_at("a", 2);
    q.add_operation_with("a".to_string(), 5, OperationType::Delete, vec![], None, 0, 1);
    let s = q.get_status();
    assert_eq!(s.operations.len(), 1);
    assert_eq!(s.operations[0].status, OperationStatus::InProgress);
    assert_eq!(s.operations[0].started_at, Some(5));
}

#[test]
fn finish_operation_completes_or_fails() {
    let mut q = queue_with(&[("a", 1), ("b", 2)]);
    let ok: Result<u32, String> = finish_operation(&mut q, "a", Ok(3));
    assert_eq!(ok, Ok(3));
    let err: Result<u32, String> = finish_operation(&mut q, "b", Err("no".to_string()));
    assert_eq!(err, Err("no".to_string()));
    assert_eq!(q.status("a"), Some(OperationStatus::Completed));
    assert_eq!(q.status("b"), Some(OperationStatus::Failed));
}

#[test]
fn decimal_and_operation_ids() {
    assert_eq!(decimal_string(0), "0");
    assert_eq!(decimal_string(1234567890), "1234567890");
    assert_eq!(operation_id_at(42), "op-42");
}
