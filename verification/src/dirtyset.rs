//! A second design of the task cache, with direct dirty-set tracking: each
//! entry is a bare task, and dirtiness lives in a separate set of
//! identifiers. Where [`crate::cache::TaskCache`] guards every entry with a
//! runtime borrow check, this design has no notion of a borrow conflict:
//! reads hand out copies, bulk reads go through filters, and obtaining
//! mutable access marks the identifier dirty — pessimistically, whether or
//! not anything is changed. The two designs are not interoperable; they
//! share the error taxonomy, the task model and the query-string format.
//!
//! The split between the task list and the dirty set makes one extra
//! failure possible in principle: a dirty identifier with no entry. A write
//! surfaces that as `CacheMissError`, a defect signal that is structurally
//! unreachable through the operations here — every operation that marks an
//! identifier dirty marks one that has an entry, and every operation that
//! removes entries clears the dirty set with them.

use vstd::prelude::*;

use crate::cache::query_spec;
use crate::cache::generate_query;
use crate::error::Error;
use crate::error::ErrorKind;
use crate::error::ErrorView;
use crate::task::Task;
use crate::task::TaskId;
use crate::task::TaskStatus;
use crate::task::TaskView;

verus! {

/// Whether some task in the sequence carries the given identifier.
pub open spec fn contains_task(tasks: Seq<TaskView>, id: TaskId) -> bool {
    exists|i: int| 0 <= i < tasks.len() && tasks[i].uuid == id
}

/// The index of the task carrying the given identifier.
pub open spec fn task_idx(tasks: Seq<TaskView>, id: TaskId) -> int {
    choose|i: int| 0 <= i < tasks.len() && tasks[i].uuid == id
}

/// The batch a write sends: for each dirty identifier, in dirty-set order,
/// the task cached under it; an identifier without an entry contributes
/// nothing here — the write itself reports it as `CacheMissError`.
pub open spec fn batch_of(tasks: Seq<TaskView>, dirty: Seq<TaskId>) -> Seq<TaskView>
    decreases dirty.len(),
{
    if dirty.len() == 0 {
        Seq::empty()
    } else {
        let rest = batch_of(tasks, dirty.drop_last());
        if contains_task(tasks, dirty.last()) {
            rest.push(tasks[task_idx(tasks, dirty.last())])
        } else {
            rest
        }
    }
}

/// The task list a load builds from the tasks the external query returned:
/// in order of first occurrence; of tasks sharing an identifier the last
/// wins.
pub open spec fn loaded_tasks(tasks: Seq<TaskView>) -> Seq<TaskView>
    decreases tasks.len(),
{
    if tasks.len() == 0 {
        Seq::empty()
    } else {
        let prev = loaded_tasks(tasks.drop_last());
        if contains_task(prev, tasks.last().uuid) {
            prev.update(task_idx(prev, tasks.last().uuid), tasks.last())
        } else {
            prev.push(tasks.last())
        }
    }
}

/// The tasks selected by a sequence of per-task decisions, in storage
/// order: task `i` is kept where `keep[i]` is true.
pub open spec fn masked(tasks: Seq<TaskView>, keep: Seq<bool>) -> Seq<TaskView>
    decreases keep.len(),
{
    if keep.len() == 0 || tasks.len() == 0 {
        Seq::empty()
    } else {
        let rest = masked(tasks.drop_last(), keep.drop_last());
        if keep.last() {
            rest.push(tasks.last())
        } else {
            rest
        }
    }
}

/// The mathematical content of a [`DirtySetCache`]: the cached tasks in
/// storage order, the identifiers with unsaved changes in marking order,
/// and the configured ignore list.
pub struct DirtySetView {
    pub tasks: Seq<TaskView>,
    pub dirty: Seq<TaskId>,
    pub ignore: Seq<TaskStatus>,
}

/// A task cache with direct dirty-set tracking: bare tasks keyed by their
/// identifier, and a separate set of identifiers with unsaved changes.
#[derive(Debug)]
pub struct DirtySetCache {
    tasks: Vec<Task>,
    dirty: Vec<TaskId>,
    ignore: Vec<TaskStatus>,
}

impl View for DirtySetCache {
    type V = DirtySetView;

    closed spec fn view(&self) -> DirtySetView {
        DirtySetView {
            tasks: self.tasks@.map_values(|t: Task| t@),
            dirty: self.dirty@,
            ignore: self.ignore@,
        }
    }
}

impl DirtySetCache {
    /// Well-formedness: no two tasks carry the same identifier, and no
    /// identifier is marked dirty twice.
    pub open spec fn wf(self) -> bool {
        &&& forall|i: int, j: int|
            0 <= i < j < self@.tasks.len() ==> self@.tasks[i].uuid != self@.tasks[j].uuid
        &&& forall|i: int, j: int|
            0 <= i < j < self@.dirty.len() ==> self@.dirty[i] != self@.dirty[j]
    }

    /// Consistency between the two structures: every dirty identifier has
    /// an entry. Every operation preserves it, which is what makes the
    /// `CacheMissError` path of a write a pure defect signal.
    pub open spec fn consistent(self) -> bool {
        forall|i: int|
            0 <= i < self@.dirty.len() ==> contains_task(self@.tasks, #[trigger] self@.dirty[i])
    }

    /// Creates a new, empty cache that will skip the given statuses on
    /// load.
    pub fn new(ignore: Vec<TaskStatus>) -> (c: DirtySetCache)
        ensures
            c.wf(),
            c.consistent(),
            c@.tasks == Seq::<TaskView>::empty(),
            c@.dirty == Seq::<TaskId>::empty(),
            c@.ignore == ignore@,
    {
        let c = DirtySetCache { tasks: Vec::new(), dirty: Vec::new(), ignore };
        proof {
            assert(c@.tasks =~= Seq::<TaskView>::empty());
            assert(c@.dirty =~= Seq::<TaskId>::empty());
        }
        c
    }

    /// The statuses this cache ignores on load.
    pub fn ignore(&self) -> (r: &Vec<TaskStatus>)
        ensures
            r@ == self@.ignore,
    {
        &self.ignore
    }

    /// Unconditionally discards all contents, unsaved changes included.
    /// Never fails.
    pub fn reset(&mut self)
        ensures
            final(self).wf(),
            final(self).consistent(),
            final(self)@.tasks == Seq::<TaskView>::empty(),
            final(self)@.dirty == Seq::<TaskId>::empty(),
            final(self)@.ignore == old(self)@.ignore,
    {
        self.tasks.clear();
        self.dirty.clear();
        proof {
            assert(self@.tasks =~= Seq::<TaskView>::empty());
            assert(self@.dirty =~= Seq::<TaskId>::empty());
        }
    }

    /// The index of the task carrying the given identifier, where one does.
    fn find_task(&self, uuid: TaskId) -> (r: Option<usize>)
        requires
            self.wf(),
        ensures
            match r {
                Some(i) => i < self@.tasks.len() && self@.tasks[i as int].uuid == uuid && i
                    == task_idx(self@.tasks, uuid),
                None => !contains_task(self@.tasks, uuid),
            },
    {
        let n = self.tasks.len();
        let mut i: usize = 0;
        while i < n
            invariant
                self.wf(),
                n == self@.tasks.len(),
                i <= n,
                forall|j: int| 0 <= j < i ==> self@.tasks[j].uuid != uuid,
            decreases n - i,
        {
            if self.tasks[i].uuid() == uuid {
                proof {
                    assert(self@.tasks[i as int].uuid == uuid);
                    assert(contains_task(self@.tasks, uuid));
                    let k = task_idx(self@.tasks, uuid);
                    assert(0 <= k < self@.tasks.len() && self@.tasks[k].uuid == uuid);
                    if k < i as int {
                        assert(self@.tasks[k].uuid != self@.tasks[i as int].uuid);
                    } else if (i as int) < k {
                        assert(self@.tasks[i as int].uuid != self@.tasks[k].uuid);
                    }
                }
                return Some(i);
            }
            i = i + 1;
        }
        None
    }

    /// Whether the given identifier is marked dirty.
    fn is_marked(&self, uuid: TaskId) -> (b: bool)
        ensures
            b == self@.dirty.contains(uuid),
    {
        let n = self.dirty.len();
        let mut i: usize = 0;
        while i < n
            invariant
                n == self@.dirty.len(),
                i <= n,
                forall|j: int| 0 <= j < i ==> self@.dirty[j] != uuid,
            decreases n - i,
        {
            if self.dirty[i] == uuid {
                proof {
                    assert(self@.dirty[i as int] == uuid);
                }
                return true;
            }
            i = i + 1;
        }
        false
    }

    /// Marks the given identifier dirty, once: already-marked identifiers
    /// are not marked again.
    fn mark(&mut self, uuid: TaskId)
        requires
            old(self).wf(),
        ensures
            final(self).tasks@ == old(self).tasks@,
            final(self)@.tasks == old(self)@.tasks,
            final(self)@.ignore == old(self)@.ignore,
            final(self)@.dirty == if old(self)@.dirty.contains(uuid) {
                old(self)@.dirty
            } else {
                old(self)@.dirty.push(uuid)
            },
            final(self).wf(),
    {
        if !self.is_marked(uuid) {
            self.dirty.push(uuid);
        }
    }

    /// Inserts or replaces the task under its identifier, leaving the dirty
    /// set alone.
    fn store(&mut self, task: Task)
        requires
            old(self).wf(),
        ensures
            final(self).wf(),
            final(self)@.ignore == old(self)@.ignore,
            final(self)@.dirty == old(self)@.dirty,
            final(self)@.tasks == if contains_task(old(self)@.tasks, task@.uuid) {
                old(self)@.tasks.update(task_idx(old(self)@.tasks, task@.uuid), task@)
            } else {
                old(self)@.tasks.push(task@)
            },
    {
        let ghost tv = task@;
        match self.find_task(task.uuid()) {
            Some(i) => {
                self.tasks.set(i, task);
                proof {
                    assert(self@.tasks =~= old(self)@.tasks.update(i as int, tv));
                    assert(tv.uuid == old(self)@.tasks[i as int].uuid);
                    assert forall|p: int, q: int|
                        0 <= p < q < self@.tasks.len() implies self@.tasks[p].uuid
                        != self@.tasks[q].uuid by {
                        assert(old(self)@.tasks[p].uuid != old(self)@.tasks[q].uuid);
                    }
                }
            },
            None => {
                self.tasks.push(task);
                proof {
                    assert(self@.tasks =~= old(self)@.tasks.push(tv));
                    assert forall|p: int, q: int|
                        0 <= p < q < self@.tasks.len() implies self@.tasks[p].uuid
                        != self@.tasks[q].uuid by {
                        if q == self@.tasks.len() - 1 {
                            assert(!contains_task(old(self)@.tasks, tv.uuid));
                            assert(old(self)@.tasks[p].uuid != tv.uuid);
                        } else {
                            assert(old(self)@.tasks[p].uuid != old(self)@.tasks[q].uuid);
                        }
                    }
                }
            },
        }
        proof {
            assert(self@.dirty == old(self)@.dirty);
            assert forall|p: int, q: int|
                0 <= p < q < self@.dirty.len() implies self@.dirty[p] != self@.dirty[q] by {
                assert(old(self)@.dirty[p] != old(self)@.dirty[q]);
            }
        }
    }

    /// Sets a task into the cache: the entry for its identifier is inserted
    /// or replaced and the identifier is marked dirty, to be saved by the
    /// next write.
    pub fn set(&mut self, task: Task)
        requires
            old(self).wf(),
        ensures
            final(self).wf(),
            final(self)@.ignore == old(self)@.ignore,
            final(self)@.tasks == if contains_task(old(self)@.tasks, task@.uuid) {
                old(self)@.tasks.update(task_idx(old(self)@.tasks, task@.uuid), task@)
            } else {
                old(self)@.tasks.push(task@)
            },
            final(self)@.dirty == if old(self)@.dirty.contains(task@.uuid) {
                old(self)@.dirty
            } else {
                old(self)@.dirty.push(task@.uuid)
            },
            old(self).consistent() ==> final(self).consistent(),
    {
        let uuid = task.uuid();
        let ghost tv = task@;
        self.store(task);
        self.mark(uuid);
        proof {
            if old(self).consistent() {
                assert forall|i: int| 0 <= i < self@.dirty.len() implies contains_task(
                    self@.tasks,
                    #[trigger] self@.dirty[i],
                ) by {
                    if i < old(self)@.dirty.len() {
                        assert(contains_task(old(self)@.tasks, old(self)@.dirty[i]));
                        let k = task_idx(old(self)@.tasks, old(self)@.dirty[i]);
                        assert(self@.tasks[k].uuid == old(self)@.dirty[i] || self@.tasks[k].uuid
                            == tv.uuid);
                        if self@.tasks[k].uuid != old(self)@.dirty[i] {
                            assert(contains_task(self@.tasks, tv.uuid));
                        }
                    } else {
                        assert(self@.dirty[i] == tv.uuid);
                        if contains_task(old(self)@.tasks, tv.uuid) {
                            let k = task_idx(old(self)@.tasks, tv.uuid);
                            assert(self@.tasks[k].uuid == tv.uuid);
                        } else {
                            assert(self@.tasks.last().uuid == tv.uuid);
                        }
                    }
                }
            }
        }
    }

    /// A read-only copy of the task with the given identifier, or absent if
    /// not cached. Never marks anything dirty.
    pub fn get(&self, uuid: &TaskId) -> (r: Option<Task>)
        requires
            self.wf(),
        ensures
            match r {
                Some(t) => contains_task(self@.tasks, *uuid) && t@ == self@.tasks[task_idx(
                    self@.tasks,
                    *uuid,
                )],
                None => !contains_task(self@.tasks, *uuid),
            },
    {
        match self.find_task(*uuid) {
            Some(i) => Some(self.tasks[i].clone()),
            None => None,
        }
    }

    /// A copy of the task with the given identifier, for editing: if
    /// present, the identifier is marked dirty at once — obtaining mutable
    /// access counts as a mutation whether or not anything is changed. An
    /// edited copy goes back into the cache with [`DirtySetCache::set`].
    pub fn get_mut(&mut self, uuid: &TaskId) -> (r: Option<Task>)
        requires
            old(self).wf(),
        ensures
            final(self).wf(),
            final(self)@.tasks == old(self)@.tasks,
            final(self)@.ignore == old(self)@.ignore,
            match r {
                Some(t) => contains_task(old(self)@.tasks, *uuid) && t@ == old(self)@.tasks[
                    task_idx(old(self)@.tasks, *uuid)
                ] && final(self)@.dirty == if old(self)@.dirty.contains(*uuid) {
                    old(self)@.dirty
                } else {
                    old(self)@.dirty.push(*uuid)
                },
                None => !contains_task(old(self)@.tasks, *uuid) && final(self)@.dirty == old(
                    self,
                )@.dirty,
            },
            old(self).consistent() ==> final(self).consistent(),
    {
        match self.find_task(*uuid) {
            Some(i) => {
                let t = self.tasks[i].clone();
                self.mark(*uuid);
                proof {
                    if old(self).consistent() {
                        assert forall|k: int| 0 <= k < self@.dirty.len() implies contains_task(
                            self@.tasks,
                            #[trigger] self@.dirty[k],
                        ) by {
                            if k < old(self)@.dirty.len() {
                                assert(contains_task(old(self)@.tasks, old(self)@.dirty[k]));
                            } else {
                                assert(self@.dirty[k] == *uuid);
                            }
                        }
                    }
                }
                Some(t)
            },
            None => None,
        }
    }

    /// The task stored at the given position, for relating a predicate
    /// call to the cache in contracts.
    pub closed spec fn task_at(self, i: int) -> Task {
        self.tasks@[i]
    }

    /// The stored task is what the view shows at the same position.
    pub proof fn lemma_task_at(self, i: int)
        requires
            0 <= i < self@.tasks.len(),
        ensures
            self.task_at(i)@ == self@.tasks[i],
    {
    }

    /// All tasks currently satisfying the predicate, as read-only copies,
    /// in storage order. Never changes any state — the cache is taken by
    /// shared reference, so in particular nothing becomes dirty.
    pub fn filter<F: Fn(&Task) -> bool>(&self, pred: F) -> (r: Vec<Task>)
        requires
            self.wf(),
            forall|t: &Task| #[trigger] call_requires(pred, (t,)),
        ensures
            exists|keep: Seq<bool>|
                {
                    &&& keep.len() == self@.tasks.len()
                    &&& forall|i: int|
                        0 <= i < keep.len() ==> call_ensures(
                            pred,
                            (&self.task_at(i),),
                            #[trigger] keep[i],
                        )
                    &&& r@.map_values(|t: Task| t@) == masked(self@.tasks, keep)
                },
    {
        let n = self.tasks.len();
        let mut out: Vec<Task> = Vec::new();
        let ghost mut keep: Seq<bool> = Seq::empty();
        let mut i: usize = 0;
        proof {
            assert(out@.map_values(|t: Task| t@) =~= masked(self@.tasks.subrange(0, 0), keep));
        }
        while i < n
            invariant
                self.wf(),
                n == self@.tasks.len(),
                i <= n,
                keep.len() == i,
                forall|t: &Task| #[trigger] call_requires(pred, (t,)),
                forall|j: int|
                    0 <= j < i ==> call_ensures(pred, (&self.task_at(j),), #[trigger] keep[j]),
                out@.map_values(|t: Task| t@) == masked(self@.tasks.subrange(0, i as int), keep),
            decreases n - i,
        {
            let matched = pred(&self.tasks[i]);
            if matched {
                let task = self.tasks[i].clone();
                out.push(task);
            }
            proof {
                let prev = keep;
                keep = keep.push(matched);
                assert(keep.drop_last() =~= prev);
                let prefix = self@.tasks.subrange(0, i as int);
                let step = self@.tasks.subrange(0, i + 1 as int);
                assert(step.drop_last() =~= prefix);
                assert(step.last() == self@.tasks[i as int]);
                if matched {
                    assert(out@.map_values(|t: Task| t@) =~= out@.drop_last().map_values(
                        |t: Task| t@,
                    ).push(out@.last()@));
                }
            }
            i = i + 1;
        }
        proof {
            assert(self@.tasks.subrange(0, self@.tasks.len() as int) =~= self@.tasks);
        }
        out
    }

    /// All tasks currently satisfying the predicate, as copies for editing,
    /// in storage order — and every matched identifier is marked dirty at
    /// once, whether or not the caller goes on to change anything: the same
    /// pessimistic policy as a mutable borrow. Identifiers already dirty
    /// stay dirty, in place; tasks and the ignore list are untouched. On a
    /// cache with nothing dirty beforehand, the next write's batch is
    /// exactly the matched tasks.
    pub fn filter_mut<F: Fn(&Task) -> bool>(&mut self, pred: F) -> (r: Vec<Task>)
        requires
            old(self).wf(),
            forall|t: &Task| #[trigger] call_requires(pred, (t,)),
        ensures
            final(self).wf(),
            final(self)@.tasks == old(self)@.tasks,
            final(self)@.ignore == old(self)@.ignore,
            old(self)@.dirty.is_prefix_of(final(self)@.dirty),
            forall|k: int|
                0 <= k < r@.len() ==> final(self)@.dirty.contains(#[trigger] r@[k]@.uuid),
            old(self).consistent() ==> final(self).consistent(),
            exists|keep: Seq<bool>|
                {
                    &&& keep.len() == old(self)@.tasks.len()
                    &&& forall|i: int|
                        0 <= i < keep.len() ==> call_ensures(
                            pred,
                            (&old(self).task_at(i),),
                            #[trigger] keep[i],
                        )
                    &&& r@.map_values(|t: Task| t@) == masked(old(self)@.tasks, keep)
                },
            old(self)@.dirty.len() == 0 ==> batch_of(final(self)@.tasks, final(self)@.dirty)
                == r@.map_values(|t: Task| t@),
    {
        let n = self.tasks.len();
        let mut out: Vec<Task> = Vec::new();
        let ghost mut keep: Seq<bool> = Seq::empty();
        let mut i: usize = 0;
        proof {
            assert(out@.map_values(|t: Task| t@) =~= masked(self@.tasks.subrange(0, 0), keep));
        }
        while i < n
            invariant
                self.wf(),
                n == self@.tasks.len(),
                i <= n,
                keep.len() == i,
                self@.tasks == old(self)@.tasks,
                self@.ignore == old(self)@.ignore,
                self.tasks@ == old(self).tasks@,
                old(self)@.dirty.is_prefix_of(self@.dirty),
                forall|t: &Task| #[trigger] call_requires(pred, (t,)),
                forall|j: int|
                    0 <= j < i ==> call_ensures(pred, (&old(self).task_at(j),), #[trigger] keep[j]),
                out@.map_values(|t: Task| t@) == masked(self@.tasks.subrange(0, i as int), keep),
                forall|k: int|
                    0 <= k < out@.len() ==> self@.dirty.contains(#[trigger] out@[k]@.uuid),
                old(self).consistent() ==> self.consistent(),
                old(self)@.dirty.len() == 0 ==> forall|j: int|
                    0 <= j < self@.dirty.len() ==> exists|k: int|
                        0 <= k < i && #[trigger] self@.dirty[j] == self@.tasks[k].uuid,
                old(self)@.dirty.len() == 0 ==> batch_of(self@.tasks, self@.dirty)
                    == out@.map_values(|t: Task| t@),
            decreases n - i,
        {
            let ghost pre_dirty = self@.dirty;
            let ghost pre_out = out@;
            let matched = pred(&self.tasks[i]);
            if matched {
                let task = self.tasks[i].clone();
                let uuid = task.uuid();
                out.push(task);
                proof {
                    if old(self)@.dirty.len() == 0 && pre_dirty.contains(uuid) {
                        let j = choose|j: int| 0 <= j < pre_dirty.len() && pre_dirty[j] == uuid;
                        let k = choose|k: int|
                            0 <= k < i && pre_dirty[j] == self@.tasks[k].uuid;
                        assert(self@.tasks[k].uuid == self@.tasks[i as int].uuid);
                    }
                }
                self.mark(uuid);
                proof {
                    assert(contains_task(self@.tasks, uuid));
                    // every marked identifier still has its entry
                    if old(self).consistent() {
                        assert forall|k: int|
                            0 <= k < self@.dirty.len() implies contains_task(
                            self@.tasks,
                            #[trigger] self@.dirty[k],
                        ) by {
                            if k < pre_dirty.len() {
                                assert(contains_task(self@.tasks, pre_dirty[k]));
                            }
                        }
                    }
                    // pushes keep every previously marked identifier marked
                    assert forall|k: int|
                        0 <= k < out@.len() implies self@.dirty.contains(
                        #[trigger] out@[k]@.uuid,
                    ) by {
                        if k < pre_out.len() {
                            let j = choose|j: int|
                                0 <= j < pre_dirty.len() && pre_dirty[j] == out@[k]@.uuid;
                            assert(self@.dirty[j] == out@[k]@.uuid);
                        } else {
                            if pre_dirty.contains(uuid) {
                                let j = choose|j: int|
                                    0 <= j < pre_dirty.len() && pre_dirty[j] == uuid;
                                assert(self@.dirty[j] == uuid);
                            } else {
                                assert(self@.dirty.last() == uuid);
                            }
                        }
                    }
                    if old(self)@.dirty.len() == 0 {
                        // the fresh mark is this entry's identifier, at its index
                        assert(!pre_dirty.contains(uuid));
                        assert(self@.dirty =~= pre_dirty.push(uuid));
                        assert(self@.dirty.drop_last() =~= pre_dirty);
                        let x = task_idx(self@.tasks, uuid);
                        assert(self@.tasks[i as int].uuid == uuid);
                        assert(0 <= x < self@.tasks.len() && self@.tasks[x].uuid == uuid);
                        if x < i as int {
                            assert(self@.tasks[x].uuid != self@.tasks[i as int].uuid);
                        } else if (i as int) < x {
                            assert(self@.tasks[i as int].uuid != self@.tasks[x].uuid);
                        }
                        assert(batch_of(self@.tasks, self@.dirty) =~= batch_of(
                            self@.tasks,
                            pre_dirty,
                        ).push(self@.tasks[i as int]));
                        assert(out@.map_values(|t: Task| t@) =~= pre_out.map_values(
                            |t: Task| t@,
                        ).push(out@.last()@));
                    }
                }
            }
            proof {
                let prev = keep;
                keep = keep.push(matched);
                assert(keep.drop_last() =~= prev);
                let prefix = self@.tasks.subrange(0, i as int);
                let step = self@.tasks.subrange(0, i + 1 as int);
                assert(step.drop_last() =~= prefix);
                assert(step.last() == self@.tasks[i as int]);
                if matched {
                    assert(out@.map_values(|t: Task| t@) =~= out@.drop_last().map_values(
                        |t: Task| t@,
                    ).push(out@.last()@));
                }
            }
            i = i + 1;
        }
        proof {
            assert(self@.tasks.subrange(0, self@.tasks.len() as int) =~= self@.tasks);
        }
        out
    }

    /// The first step of a load: the dirty guard and the filter string. If
    /// any identifier is marked dirty this fails with `DirtyCacheError` and
    /// nothing is touched — write or reset first. Otherwise it hands out
    /// the filter string to put to the external query; the query result
    /// then goes to [`DirtySetCache::load_apply`].
    pub fn load_request(&self) -> (r: Result<String, Error>)
        ensures
            self@.dirty.len() > 0 ==> (r matches Err(e) && e@ == (ErrorView {
                kind: ErrorKind::DirtyCacheError,
                cause: None,
            })),
            self@.dirty.len() == 0 ==> (r matches Ok(q) && q@ == query_spec(self@.ignore)),
    {
        if self.dirty.len() > 0 {
            Err(Error::new(ErrorKind::DirtyCacheError))
        } else {
            Ok(generate_query(self.ignore.as_slice()))
        }
    }

    /// The second step of a load: replaces the cached tasks with those the
    /// external query returned, none of them dirty. This is a full replace,
    /// not a merge. If any identifier is marked dirty this fails with
    /// `DirtyCacheError` and nothing is touched, so a load can never
    /// discard unsaved work.
    pub fn load_apply(&mut self, tasks: Vec<Task>) -> (r: Result<(), Error>)
        requires
            old(self).wf(),
        ensures
            final(self).wf(),
            final(self)@.ignore == old(self)@.ignore,
            old(self)@.dirty.len() > 0 ==> (r matches Err(e) && e@ == (ErrorView {
                kind: ErrorKind::DirtyCacheError,
                cause: None,
            }) && final(self)@.tasks == old(self)@.tasks && final(self)@.dirty == old(
                self,
            )@.dirty),
            old(self)@.dirty.len() == 0 ==> (r is Ok && final(self)@.tasks == loaded_tasks(
                tasks@.map_values(|t: Task| t@),
            ) && final(self)@.dirty == Seq::<TaskId>::empty() && final(self).consistent()),
    {
        if self.dirty.len() > 0 {
            return Err(Error::new(ErrorKind::DirtyCacheError));
        }
        self.tasks.clear();
        proof {
            assert(self@.tasks =~= Seq::<TaskView>::empty());
        }
        let ghost views = tasks@.map_values(|t: Task| t@);
        let n = tasks.len();
        let tasks_in = tasks;
        let mut i: usize = 0;
        proof {
            assert(loaded_tasks(views.subrange(0, 0)) =~= Seq::<TaskView>::empty());
        }
        while i < n
            invariant
                self.wf(),
                n == tasks_in@.len(),
                views == tasks_in@.map_values(|t: Task| t@),
                i <= n,
                self@.tasks == loaded_tasks(views.subrange(0, i as int)),
                self@.dirty == Seq::<TaskId>::empty(),
                self@.ignore == old(self)@.ignore,
            decreases n - i,
        {
            let task = tasks_in[i].clone();
            self.store(task);
            proof {
                let prefix = views.subrange(0, i as int);
                let step = views.subrange(0, i + 1 as int);
                assert(step.drop_last() =~= prefix);
                assert(step.last() == views[i as int]);
                assert(views[i as int] == tasks_in@[i as int]@);
            }
            i = i + 1;
        }
        proof {
            assert(views.subrange(0, views.len() as int) =~= views);
        }
        Ok(())
    }

    /// The first step of a write: the batch of the tasks cached under the
    /// dirty identifiers, in marking order, as it goes to the external save
    /// in one call. An empty batch means nothing is dirty: the write is a
    /// no-op that succeeds without an external call. A dirty identifier
    /// with no entry yields `CacheMissError` — a defect in the cache's own
    /// bookkeeping, unreachable through the operations here. After the
    /// save succeeds, [`DirtySetCache::write_commit`] clears the dirty set;
    /// after a failed save nothing is cleared.
    pub fn write_request(&self) -> (r: Result<Vec<Task>, Error>)
        requires
            self.wf(),
        ensures
            self.consistent() ==> (r matches Ok(v) && v@.map_values(|t: Task| t@) == batch_of(
                self@.tasks,
                self@.dirty,
            ) && v@.len() == self@.dirty.len()),
            !self.consistent() ==> (r matches Err(e) && e@ == (ErrorView {
                kind: ErrorKind::CacheMissError,
                cause: None,
            })),
    {
        let n = self.dirty.len();
        let mut out: Vec<Task> = Vec::new();
        let mut i: usize = 0;
        proof {
            assert(out@.map_values(|t: Task| t@) =~= batch_of(
                self@.tasks,
                self@.dirty.subrange(0, 0),
            ));
        }
        while i < n
            invariant
                self.wf(),
                n == self@.dirty.len(),
                i <= n,
                out@.len() == i,
                out@.map_values(|t: Task| t@) == batch_of(
                    self@.tasks,
                    self@.dirty.subrange(0, i as int),
                ),
                forall|j: int|
                    0 <= j < i ==> contains_task(self@.tasks, #[trigger] self@.dirty[j]),
            decreases n - i,
        {
            proof {
                let prefix = self@.dirty.subrange(0, i as int);
                let step = self@.dirty.subrange(0, i + 1 as int);
                assert(step.drop_last() =~= prefix);
                assert(step.last() == self@.dirty[i as int]);
            }
            match self.find_task(self.dirty[i]) {
                None => {
                    proof {
                        assert(!contains_task(self@.tasks, self@.dirty[i as int]));
                    }
                    return Err(Error::new(ErrorKind::CacheMissError));
                },
                Some(j) => {
                    let task = self.tasks[j].clone();
                    out.push(task);
                    proof {
                        assert(out@.map_values(|t: Task| t@) =~= out@.drop_last().map_values(
                            |t: Task| t@,
                        ).push(out@.last()@));
                    }
                },
            }
            i = i + 1;
        }
        proof {
            assert(self@.dirty.subrange(0, self@.dirty.len() as int) =~= self@.dirty);
        }
        Ok(out)
    }

    /// The second step of a write, after the external save succeeded:
    /// clears the dirty set. Tasks and the ignore list stay as they were.
    pub fn write_commit(&mut self)
        requires
            old(self).wf(),
        ensures
            final(self).wf(),
            final(self).consistent(),
            final(self)@.tasks == old(self)@.tasks,
            final(self)@.ignore == old(self)@.ignore,
            final(self)@.dirty == Seq::<TaskId>::empty(),
    {
        self.dirty.clear();
        proof {
            assert(self@.dirty =~= Seq::<TaskId>::empty());
        }
    }

    /// Drives a refresh through the outcome of its save step: a refresh is
    /// a write followed by a load, so the caller first saves the batch from
    /// [`DirtySetCache::write_request`] and hands the outcome here. If the
    /// save failed, its error is surfaced unchanged, nothing is touched,
    /// and no filter string comes back — the load is never attempted. If
    /// it succeeded, the dirty set is cleared and the filter string for the
    /// reload comes back, to be put to the external query and the result
    /// given to [`DirtySetCache::load_apply`].
    pub fn refresh_after_save(&mut self, saved: Result<(), Error>) -> (r: Result<String, Error>)
        requires
            old(self).wf(),
        ensures
            final(self).wf(),
            final(self)@.tasks == old(self)@.tasks,
            final(self)@.ignore == old(self)@.ignore,
            saved matches Err(e) ==> (final(self)@.dirty == old(self)@.dirty && (r matches Err(e2)
                && e2@ == e@)),
            saved is Ok ==> (final(self)@.dirty == Seq::<TaskId>::empty() && (r matches Ok(q) && q@
                == query_spec(old(self)@.ignore))),
    {
        match saved {
            Err(e) => Err(e),
            Ok(_) => {
                self.write_commit();
                Ok(generate_query(self.ignore.as_slice()))
            },
        }
    }
}

/// Every task a load stores is one of the tasks the query returned: with
/// an external boundary that respects the filter string, no task in an
/// ignored status can appear in a freshly loaded cache.
pub proof fn lemma_loaded_tasks_from_response(tasks: Seq<TaskView>, i: int)
    requires
        0 <= i < loaded_tasks(tasks).len(),
    ensures
        tasks.contains(loaded_tasks(tasks)[i]),
    decreases tasks.len(),
{
    let built = loaded_tasks(tasks);
    let prev = loaded_tasks(tasks.drop_last());
    let t = tasks.last();
    assert(tasks[tasks.len() - 1] == t);
    assert(tasks.contains(t));
    if contains_task(prev, t.uuid) {
        let k = task_idx(prev, t.uuid);
        if i != k {
            assert(built[i] == prev[i]);
            lemma_loaded_tasks_from_response(tasks.drop_last(), i);
            let w = choose|w: int|
                0 <= w < tasks.drop_last().len() && tasks.drop_last()[w] == prev[i];
            assert(tasks[w] == prev[i]);
            assert(tasks.contains(prev[i]));
        }
    } else {
        if i < prev.len() {
            assert(built[i] == prev[i]);
            lemma_loaded_tasks_from_response(tasks.drop_last(), i);
            let w = choose|w: int|
                0 <= w < tasks.drop_last().len() && tasks.drop_last()[w] == prev[i];
            assert(tasks[w] == prev[i]);
            assert(tasks.contains(prev[i]));
        }
    }
}

impl Default for DirtySetCache {
    /// Equivalent to `DirtySetCache::new(vec![Completed, Deleted])`:
    /// completed and deleted tasks are numerous and rarely need bulk
    /// operations, so they are skipped on load by default.
    fn default() -> (c: Self)
        ensures
            c.wf(),
            c.consistent(),
            c@.tasks == Seq::<TaskView>::empty(),
            c@.dirty == Seq::<TaskId>::empty(),
            c@.ignore == seq![TaskStatus::Completed, TaskStatus::Deleted],
    {
        let c = DirtySetCache::new(vec![TaskStatus::Completed, TaskStatus::Deleted]);
        proof {
            assert(c@.ignore =~= seq![TaskStatus::Completed, TaskStatus::Deleted]);
        }
        c
    }
}

} // verus!
