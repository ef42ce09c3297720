use taskcache::cache::{generate_query, TaskCache};
use taskcache::error::ErrorKind;
use taskcache::task::{Task, TaskId, TaskStatus};

fn task(id: u128, status: TaskStatus, description: &str) -> Task {
    Task::new(TaskId::new(id), status, String::from(description))
}

#[test]
fn default_ignore_list_is_completed_and_deleted() {
    let cache = TaskCache::default();
    assert_eq!(
        cache.ignore(),
        &vec![TaskStatus::Completed, TaskStatus::Deleted]
    );
    let explicit = TaskCache::new(vec![TaskStatus::Completed, TaskStatus::Deleted]);
    assert_eq!(cache.ignore(), explicit.ignore());
}

#[test]
fn default_load_request_uses_default_filter() {
    let cache = TaskCache::default();
    let explicit = TaskCache::new(vec![TaskStatus::Completed, TaskStatus::Deleted]);
    assert_eq!(cache.load_request().unwrap(), "-COMPLETED -DELETED");
    assert_eq!(cache.load_request().unwrap(), explicit.load_request().unwrap());
}

#[test]
fn query_string_format() {
    assert_eq!(
        generate_query(&[TaskStatus::Completed, TaskStatus::Deleted]),
        "-COMPLETED -DELETED"
    );
    assert_eq!(generate_query(&[]), "");
}

#[test]
fn query_string_single_and_many() {
    assert_eq!(generate_query(&[TaskStatus::Pending]), "-PENDING");
    assert_eq!(
        generate_query(&[
            TaskStatus::Waiting,
            TaskStatus::Recurring,
            TaskStatus::Deleted
        ]),
        "-WAITING -RECURRING -DELETED"
    );
}

#[test]
fn dirty_guard_on_load() {
    let mut cache = TaskCache::new(Vec::new());
    cache.set(task(7, TaskStatus::Pending, "dirty entry"));

    let request = cache.load_request();
    assert_eq!(request.unwrap_err().kind(), ErrorKind::DirtyCacheError);

    let apply = cache.load_apply(vec![task(8, TaskStatus::Pending, "fresh")]);
    assert_eq!(apply.unwrap_err().kind(), ErrorKind::DirtyCacheError);

    // The cache, its dirty entry included, is left unchanged.
    assert_eq!(cache.iter().len(), 1);
    let id = TaskId::new(7);
    let cell = cache.get_ptr(&id).unwrap();
    let handle = cell.borrow(&mut cache).unwrap();
    assert_eq!(handle.task().uuid().value(), 7);
    assert_eq!(handle.task().description(), "dirty entry");
    cache.release(handle);
    let batch = cache.write_request();
    assert_eq!(batch.len(), 1);
    assert_eq!(batch[0].uuid().value(), 7);
}

#[test]
fn reset_clears_unconditionally() {
    let mut cache = TaskCache::new(Vec::new());
    cache.set(task(1, TaskStatus::Pending, "unsaved"));
    cache.reset();
    assert_eq!(cache.iter().len(), 0);
    assert!(cache.write_request().is_empty());
    // A load succeeds right after, even though no write ever ran.
    assert!(cache.load_request().is_ok());
    assert!(cache
        .load_apply(vec![task(2, TaskStatus::Pending, "loaded")])
        .is_ok());
    assert_eq!(cache.iter().len(), 1);
}

#[test]
fn write_is_selective_and_idempotent() {
    let mut cache = TaskCache::new(Vec::new());
    cache
        .load_apply(vec![task(1, TaskStatus::Pending, "clean")])
        .unwrap();
    cache.set(task(2, TaskStatus::Pending, "task a"));

    // Exactly the dirty task goes to the external save.
    let batch = cache.write_request();
    assert_eq!(batch.len(), 1);
    assert_eq!(batch[0].uuid().value(), 2);
    cache.write_commit();

    // With nothing further mutated, the next write has no batch at all:
    // no external call is made.
    assert!(cache.write_request().is_empty());
    // The entries themselves are still cached.
    assert_eq!(cache.iter().len(), 2);
}

#[test]
fn ignored_but_dirty_tasks_are_still_saved() {
    let mut cache = TaskCache::default();
    cache
        .load_apply(vec![task(5, TaskStatus::Pending, "about to finish")])
        .unwrap();

    // Mutate the cached task into an ignored status.
    let id = TaskId::new(5);
    let cell = cache.get_ptr(&id).unwrap();
    let mut handle = cell.borrow_mut(&mut cache).unwrap();
    handle.task_mut().set_status(TaskStatus::Completed);
    cache.release_mut(handle);

    // A load would never fetch a completed task, but the write includes it.
    let batch = cache.write_request();
    assert_eq!(batch.len(), 1);
    assert_eq!(batch[0].uuid().value(), 5);
    assert_eq!(batch[0].status(), TaskStatus::Completed);
}

#[test]
fn borrow_exclusivity() {
    let mut cache = TaskCache::new(Vec::new());
    cache
        .load_apply(vec![task(3, TaskStatus::Pending, "contended")])
        .unwrap();

    let id = TaskId::new(3);
    let cell_a = cache.get_ptr(&id).unwrap();
    let cell_b = cache.get_ptr(&id).unwrap();

    let held = cell_a.borrow_mut(&mut cache).unwrap();
    // While the mutable handle is held, any other handle is absent.
    assert!(cell_b.borrow(&mut cache).is_none());
    assert!(cell_b.borrow_mut(&mut cache).is_none());

    cache.release_mut(held);
    assert!(cell_b.borrow(&mut cache).is_some());
}

#[test]
fn shared_borrows_exclude_writers_only() {
    let mut cache = TaskCache::new(Vec::new());
    cache
        .load_apply(vec![task(4, TaskStatus::Pending, "shared")])
        .unwrap();

    let id = TaskId::new(4);
    let cell = cache.get_ptr(&id).unwrap();
    let first = cell.borrow(&mut cache).unwrap();
    let second = cell.borrow(&mut cache).unwrap();
    // Readers coexist; a writer is refused while any reader is held.
    assert!(cell.borrow_mut(&mut cache).is_none());
    cache.release(first);
    assert!(cell.borrow_mut(&mut cache).is_none());
    cache.release(second);
    assert!(cell.borrow_mut(&mut cache).is_some());
}

#[test]
fn dirty_on_mutable_borrow_without_change() {
    let mut cache = TaskCache::new(Vec::new());
    cache
        .load_apply(vec![task(9, TaskStatus::Pending, "untouched")])
        .unwrap();
    assert!(cache.write_request().is_empty());

    let id = TaskId::new(9);
    let cell = cache.get_ptr(&id).unwrap();
    let handle = cell.borrow_mut(&mut cache).unwrap();
    // Released at once, no field changed.
    cache.release_mut(handle);

    let batch = cache.write_request();
    assert_eq!(batch.len(), 1);
    assert_eq!(batch[0].uuid().value(), 9);
    assert_eq!(batch[0].status(), TaskStatus::Pending);
}

#[test]
fn read_borrow_does_not_mark_dirty() {
    let mut cache = TaskCache::new(Vec::new());
    cache
        .load_apply(vec![task(10, TaskStatus::Pending, "read only")])
        .unwrap();
    let id = TaskId::new(10);
    let cell = cache.get_ptr(&id).unwrap();
    let handle = cell.borrow(&mut cache).unwrap();
    cache.release(handle);
    assert!(cache.write_request().is_empty());
}

#[test]
fn refresh_surfaces_save_failure_and_skips_load() {
    let mut cache = TaskCache::new(vec![TaskStatus::Deleted]);
    cache.set(task(11, TaskStatus::Pending, "unsaved"));
    assert_eq!(cache.write_request().len(), 1);

    // The save failed: its error comes back unchanged and no reload filter
    // is handed out, so the load is never attempted.
    let failed = cache.refresh_after_save(Err(taskcache::error::Error::new(
        ErrorKind::TaskCmdError,
    )));
    assert_eq!(failed.unwrap_err().kind(), ErrorKind::TaskCmdError);
    // The dirty mark survives for the next attempt.
    assert_eq!(cache.write_request().len(), 1);

    // The save succeeded: the dirty marks clear and the reload filter for
    // the configured ignore list comes back.
    let query = cache.refresh_after_save(Ok(())).unwrap();
    assert_eq!(query, "-DELETED");
    assert!(cache.write_request().is_empty());
    // The reload then runs against the dirty guard without obstruction.
    assert!(cache.load_apply(Vec::new()).is_ok());
    assert_eq!(cache.iter().len(), 0);
}

#[test]
fn set_replaces_entry_with_same_identifier() {
    let mut cache = TaskCache::new(Vec::new());
    cache.set(task(6, TaskStatus::Pending, "first"));
    cache.set(task(6, TaskStatus::Waiting, "second"));
    assert_eq!(cache.iter().len(), 1);
    let batch = cache.write_request();
    assert_eq!(batch.len(), 1);
    assert_eq!(batch[0].status(), TaskStatus::Waiting);
    assert_eq!(batch[0].description(), "second");
}

#[test]
fn load_is_a_full_replace() {
    let mut cache = TaskCache::new(Vec::new());
    cache
        .load_apply(vec![
            task(1, TaskStatus::Pending, "old"),
            task(2, TaskStatus::Pending, "old"),
        ])
        .unwrap();
    cache
        .load_apply(vec![task(3, TaskStatus::Pending, "new")])
        .unwrap();
    assert_eq!(cache.iter().len(), 1);
    let gone = TaskId::new(1);
    assert!(cache.get_ptr(&gone).is_none());
    let there = TaskId::new(3);
    assert!(cache.get_ptr(&there).is_some());
}

#[test]
fn get_ptr_absent_for_unknown_identifier() {
    let cache = TaskCache::default();
    let id = TaskId::new(42);
    assert!(cache.get_ptr(&id).is_none());
}

#[test]
fn stale_cell_borrows_absent_after_reset() {
    let mut cache = TaskCache::new(Vec::new());
    cache
        .load_apply(vec![task(12, TaskStatus::Pending, "short lived")])
        .unwrap();
    let id = TaskId::new(12);
    let cell = cache.get_ptr(&id).unwrap();
    cache.reset();
    assert!(cell.borrow(&mut cache).is_none());
    assert!(cell.borrow_mut(&mut cache).is_none());
}

#[test]
fn stale_mutable_handle_edit_is_dropped() {
    let mut cache = TaskCache::new(Vec::new());
    cache
        .load_apply(vec![task(13, TaskStatus::Pending, "replaced mid-borrow")])
        .unwrap();
    let id = TaskId::new(13);
    let cell = cache.get_ptr(&id).unwrap();
    let mut handle = cell.borrow_mut(&mut cache).unwrap();
    handle.task_mut().set_status(TaskStatus::Deleted);
    // The whole cache is discarded while the handle is out.
    cache.reset();
    cache.release_mut(handle);
    assert_eq!(cache.iter().len(), 0);
}

#[test]
fn iter_yields_one_cell_per_entry() {
    let mut cache = TaskCache::new(Vec::new());
    cache
        .load_apply(vec![
            task(21, TaskStatus::Pending, "a"),
            task(22, TaskStatus::Waiting, "b"),
        ])
        .unwrap();
    let cells = cache.iter();
    assert_eq!(cells.len(), 2);
    let mut seen: Vec<u128> = Vec::new();
    for cell in &cells {
        let handle = cell.borrow(&mut cache).unwrap();
        seen.push(handle.task().uuid().value());
        cache.release(handle);
    }
    seen.sort();
    assert_eq!(seen, vec![21, 22]);
}

#[test]
fn task_identifier_from_uuid_value() {
    let parsed = uuid::Uuid::parse_str("936da01f-9abd-4d9d-80c7-02af85c822a8").unwrap();
    let id = TaskId::new(parsed.as_u128());
    assert_eq!(uuid::Uuid::from_u128(id.value()), parsed);
}
