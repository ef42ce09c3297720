use taskcache::dirtyset::DirtySetCache;
use taskcache::error::ErrorKind;
use taskcache::task::{Task, TaskId, TaskStatus};

fn task(id: u128, status: TaskStatus, description: &str) -> Task {
    Task::new(TaskId::new(id), status, String::from(description))
}

#[test]
fn dirtyset_default_ignore_list() {
    let cache = DirtySetCache::default();
    assert_eq!(
        cache.ignore(),
        &vec![TaskStatus::Completed, TaskStatus::Deleted]
    );
    assert_eq!(cache.load_request().unwrap(), "-COMPLETED -DELETED");
}

#[test]
fn dirtyset_filter_never_marks_dirty() {
    let mut cache = DirtySetCache::new(Vec::new());
    cache
        .load_apply(vec![
            task(1, TaskStatus::Pending, "a"),
            task(2, TaskStatus::Waiting, "b"),
            task(3, TaskStatus::Pending, "c"),
        ])
        .unwrap();

    let pending = cache.filter(|t: &Task| t.status() == TaskStatus::Pending);
    assert_eq!(pending.len(), 2);
    assert_eq!(pending[0].uuid().value(), 1);
    assert_eq!(pending[1].uuid().value(), 3);
    // Nothing became dirty: the next write has no batch.
    assert!(cache.write_request().unwrap().is_empty());
}

#[test]
fn dirtyset_filter_mut_marks_matched_even_unchanged() {
    let mut cache = DirtySetCache::new(Vec::new());
    cache
        .load_apply(vec![
            task(1, TaskStatus::Pending, "a"),
            task(2, TaskStatus::Waiting, "b"),
            task(3, TaskStatus::Pending, "c"),
        ])
        .unwrap();

    // The caller changes nothing, yet every matched identifier is dirty.
    let matched = cache.filter_mut(|t: &Task| t.status() == TaskStatus::Pending);
    assert_eq!(matched.len(), 2);

    // The subsequent write persists exactly the matched set.
    let batch = cache.write_request().unwrap();
    assert_eq!(batch.len(), 2);
    assert_eq!(batch[0].uuid().value(), 1);
    assert_eq!(batch[1].uuid().value(), 3);
}

#[test]
fn dirtyset_get_does_not_mark_but_get_mut_does() {
    let mut cache = DirtySetCache::new(Vec::new());
    cache
        .load_apply(vec![task(7, TaskStatus::Pending, "entry")])
        .unwrap();

    let id = TaskId::new(7);
    assert_eq!(cache.get(&id).unwrap().description(), "entry");
    assert!(cache.write_request().unwrap().is_empty());

    let copy = cache.get_mut(&id).unwrap();
    assert_eq!(copy.uuid().value(), 7);
    let batch = cache.write_request().unwrap();
    assert_eq!(batch.len(), 1);
    assert_eq!(batch[0].uuid().value(), 7);

    let missing = TaskId::new(8);
    assert!(cache.get(&missing).is_none());
    assert!(cache.get_mut(&missing).is_none());
}

#[test]
fn dirtyset_edit_round_trip_through_set() {
    let mut cache = DirtySetCache::default();
    cache
        .load_apply(vec![task(5, TaskStatus::Pending, "nearly done")])
        .unwrap();

    let id = TaskId::new(5);
    let mut copy = cache.get_mut(&id).unwrap();
    copy.set_status(TaskStatus::Completed);
    cache.set(copy);

    // Dirty once, saved once, even though set ran after get_mut.
    let batch = cache.write_request().unwrap();
    assert_eq!(batch.len(), 1);
    assert_eq!(batch[0].status(), TaskStatus::Completed);
}

#[test]
fn dirtyset_dirty_guard_and_reset() {
    let mut cache = DirtySetCache::new(Vec::new());
    cache.set(task(1, TaskStatus::Pending, "unsaved"));
    assert_eq!(
        cache.load_request().unwrap_err().kind(),
        ErrorKind::DirtyCacheError
    );
    assert_eq!(
        cache
            .load_apply(vec![task(2, TaskStatus::Pending, "fresh")])
            .unwrap_err()
            .kind(),
        ErrorKind::DirtyCacheError
    );
    // The unsaved entry is still there.
    let id = TaskId::new(1);
    assert!(cache.get(&id).is_some());

    cache.reset();
    assert!(cache.get(&id).is_none());
    assert!(cache.load_apply(Vec::new()).is_ok());
}

#[test]
fn dirtyset_write_commit_clears_marks() {
    let mut cache = DirtySetCache::new(Vec::new());
    cache.set(task(1, TaskStatus::Pending, "task a"));
    let batch = cache.write_request().unwrap();
    assert_eq!(batch.len(), 1);
    cache.write_commit();
    assert!(cache.write_request().unwrap().is_empty());
    let id = TaskId::new(1);
    assert!(cache.get(&id).is_some());
}

#[test]
fn dirtyset_refresh_ordering() {
    let mut cache = DirtySetCache::new(vec![TaskStatus::Completed]);
    cache.set(task(4, TaskStatus::Pending, "unsaved"));

    let failed = cache.refresh_after_save(Err(taskcache::error::Error::new(
        ErrorKind::SerializeError,
    )));
    assert_eq!(failed.unwrap_err().kind(), ErrorKind::SerializeError);
    assert_eq!(cache.write_request().unwrap().len(), 1);

    let query = cache.refresh_after_save(Ok(())).unwrap();
    assert_eq!(query, "-COMPLETED");
    assert!(cache.write_request().unwrap().is_empty());
}

#[test]
fn dirtyset_set_replaces_and_marks_once() {
    let mut cache = DirtySetCache::new(Vec::new());
    cache.set(task(6, TaskStatus::Pending, "first"));
    cache.set(task(6, TaskStatus::Waiting, "second"));
    let batch = cache.write_request().unwrap();
    assert_eq!(batch.len(), 1);
    assert_eq!(batch[0].status(), TaskStatus::Waiting);
    assert_eq!(batch[0].description(), "second");
}
