//! The task cache: an in-memory store of task records keyed by identifier,
//! with dirty-tracking so that only modified records are written back.
//!
//! The external query and save verbs block on another process, so they stay
//! with the caller: the cache exposes a request/apply protocol instead. A
//! load is `load_request` (the dirty guard and the filter string), the
//! external query, then `load_apply`; a write is `write_request` (the dirty
//! batch), the external save, then `write_commit`; a refresh drives the save
//! outcome through `refresh_after_save`, which hands out the reload filter
//! only when the save succeeded.
//!
//! Access to single entries is runtime-checked: each entry carries a guard
//! (free, counted readers, or one writer), and conflicting borrows yield an
//! absent result rather than an error. Taking a mutable handle marks the
//! entry dirty whether or not the caller goes on to change it.

use vstd::prelude::*;
use vstd::string::StringExecFns;

use crate::error::Error;
use crate::error::ErrorKind;
use crate::error::ErrorView;
use crate::task::Task;
use crate::task::TaskId;
use crate::task::TaskStatus;
use crate::task::TaskView;
use crate::task::status_name;

verus! {

/// Whether a cached task has unsaved local changes.
#[derive(Clone, Copy, Debug, Hash, PartialEq, Eq, Structural)]
pub enum MutationState {
    Dirty,
    Clean,
}

/// The runtime guard on one cache entry: free, held by counted readers, or
/// held by a single writer.
#[derive(Clone, Copy, Debug, Hash, PartialEq, Eq, Structural)]
pub enum BorrowState {
    Free,
    Reading(usize),
    Writing,
}

/// The mathematical content of one cache entry.
pub struct EntryView {
    pub task: TaskView,
    pub state: MutationState,
    pub guard: BorrowState,
}

/// The mathematical content of a [`TaskCache`]: its entries in storage
/// order, and the configured ignore list.
pub struct CacheView {
    pub entries: Seq<EntryView>,
    pub ignore: Seq<TaskStatus>,
}

/// One cache slot: the task, its dirty mark, and its borrow guard.
#[derive(Debug)]
struct Entry {
    task: Task,
    state: MutationState,
    guard: BorrowState,
}

/// A TaskCache caches tasks keyed by their identifier. For performance it
/// can ignore statuses: tasks in those states are not requested on a load.
/// A cached task that later moves into an ignored state is not evicted and
/// is still saved by the next write — the ignore list affects only what is
/// loaded, never what is saved.
#[derive(Debug)]
pub struct TaskCache {
    entries: Vec<Entry>,
    ignore: Vec<TaskStatus>,
}

impl View for TaskCache {
    type V = CacheView;

    closed spec fn view(&self) -> CacheView {
        CacheView {
            entries: self.entries@.map_values(
                |e: Entry| EntryView { task: e.task@, state: e.state, guard: e.guard },
            ),
            ignore: self.ignore@,
        }
    }
}

/// Whether some entry carries the given identifier.
pub open spec fn contains_id(entries: Seq<EntryView>, id: TaskId) -> bool {
    exists|i: int| 0 <= i < entries.len() && entries[i].task.uuid == id
}

/// The index of the entry carrying the given identifier.
pub open spec fn idx_of(entries: Seq<EntryView>, id: TaskId) -> int {
    choose|i: int| 0 <= i < entries.len() && entries[i].task.uuid == id
}

/// Whether any entry has unsaved local changes.
pub open spec fn has_dirty(entries: Seq<EntryView>) -> bool {
    exists|i: int| 0 <= i < entries.len() && entries[i].state is Dirty
}

/// The tasks of the dirty entries, in storage order: exactly the batch a
/// write hands to the external save.
pub open spec fn dirty_views(entries: Seq<EntryView>) -> Seq<TaskView>
    decreases entries.len(),
{
    if entries.len() == 0 {
        Seq::empty()
    } else {
        let rest = dirty_views(entries.drop_last());
        if entries.last().state is Dirty {
            rest.push(entries.last().task)
        } else {
            rest
        }
    }
}

/// One term of the query filter: the upper-cased status name behind a `-`.
pub open spec fn query_term(s: TaskStatus) -> Seq<char> {
    seq!['-'] + status_name(s)
}

/// The filter string a load derives from an ignore list: one term per
/// ignored status, in order, joined by single spaces; empty for an empty
/// list.
pub open spec fn query_spec(ignore: Seq<TaskStatus>) -> Seq<char>
    decreases ignore.len(),
{
    if ignore.len() == 0 {
        Seq::empty()
    } else if ignore.len() == 1 {
        query_term(ignore[0])
    } else {
        query_spec(ignore.drop_last()) + seq![' '] + query_term(ignore.last())
    }
}

/// Builds the filter string sent to the external query for the given ignore
/// list: `[Completed, Deleted]` becomes `"-COMPLETED -DELETED"`.
pub fn generate_query(ignore: &[TaskStatus]) -> (r: String)
    ensures
        r@ == query_spec(ignore@),
{
    let mut out = String::new();
    let mut i: usize = 0;
    while i < ignore.len()
        invariant
            i <= ignore@.len(),
            out@ == query_spec(ignore@.subrange(0, i as int)),
        decreases ignore@.len() - i,
    {
        if i > 0 {
            out.append(" ");
        }
        out.append("-");
        out.append(ignore[i].name());
        proof {
            reveal_strlit(" ");
            reveal_strlit("-");
            let prefix = ignore@.subrange(0, i as int);
            let step = ignore@.subrange(0, i + 1 as int);
            assert(step.drop_last() =~= prefix);
            assert(step.last() == ignore@[i as int]);
            assert(out@ =~= query_spec(step));
        }
        i = i + 1;
    }
    proof {
        assert(ignore@.subrange(0, ignore@.len() as int) =~= ignore@);
    }
    out
}

/// The guard after one more reader was admitted, or absent if a writer
/// holds the entry or the reader count cannot grow.
pub open spec fn acquire_read(g: BorrowState) -> Option<BorrowState> {
    match g {
        BorrowState::Free => Some(BorrowState::Reading(1)),
        BorrowState::Reading(n) => if n < usize::MAX {
            Some(BorrowState::Reading((n + 1) as usize))
        } else {
            None
        },
        BorrowState::Writing => None,
    }
}

/// The guard after one reader left, or absent if no reader holds the entry.
pub open spec fn release_read(g: BorrowState) -> Option<BorrowState> {
    match g {
        BorrowState::Reading(n) => if n == 1 {
            Some(BorrowState::Free)
        } else {
            Some(BorrowState::Reading((n - 1) as usize))
        },
        _ => None,
    }
}

/// An entry with its guard replaced.
pub open spec fn with_guard(e: EntryView, g: BorrowState) -> EntryView {
    EntryView { guard: g, ..e }
}

/// The mathematical content of a read or write handle: the identifier of
/// the entry it came from, and the task value it carries.
pub struct HandleView {
    pub uuid: TaskId,
    pub task: TaskView,
}

/// A read-only handle to one cached task, obtained through
/// [`TaskCell::borrow`]. It holds a copy of the task; give it back with
/// [`TaskCache::release`] to let the entry's reader count drop.
#[derive(Debug)]
pub struct TaskRef {
    uuid: TaskId,
    task: Task,
}

impl View for TaskRef {
    type V = HandleView;

    closed spec fn view(&self) -> HandleView {
        HandleView { uuid: self.uuid, task: self.task@ }
    }
}

impl TaskRef {
    /// The task this handle reads.
    pub fn task(&self) -> (t: &Task)
        ensures
            t@ == self@.task,
    {
        &self.task
    }

    /// The identifier of the entry this handle came from.
    pub fn uuid(&self) -> (id: TaskId)
        ensures
            id == self@.uuid,
    {
        self.uuid
    }
}

/// A read-write handle to one cached task, obtained through
/// [`TaskCell::borrow_mut`]. It holds the task value; edits go through
/// [`TaskMut::task_mut`] and reach the cache when the handle is given back
/// with [`TaskCache::release_mut`].
#[derive(Debug)]
pub struct TaskMut {
    uuid: TaskId,
    task: Task,
}

impl View for TaskMut {
    type V = HandleView;

    closed spec fn view(&self) -> HandleView {
        HandleView { uuid: self.uuid, task: self.task@ }
    }
}

impl TaskMut {
    /// The task this handle holds.
    pub fn task(&self) -> (t: &Task)
        ensures
            t@ == self@.task,
    {
        &self.task
    }

    /// Read-write access to the task this handle holds.
    pub fn task_mut(&mut self) -> (t: &mut Task)
        ensures
            (*t)@ == old(self)@.task,
            final(self)@.task == (*final(t))@,
            final(self)@.uuid == old(self)@.uuid,
    {
        &mut self.task
    }

    /// The identifier of the entry this handle came from.
    pub fn uuid(&self) -> (id: TaskId)
        ensures
            id == self@.uuid,
    {
        self.uuid
    }
}

/// A TaskCell points at one cache entry, found by its identifier. Through it
/// the entry's task can be borrowed read-only or mutably, against the
/// entry's runtime guard; a conflicting borrow yields an absent result.
#[derive(Clone, Copy, Debug, PartialEq, Eq, Structural)]
pub struct TaskCell {
    uuid: TaskId,
}

impl View for TaskCell {
    type V = TaskId;

    closed spec fn view(&self) -> TaskId {
        self.uuid
    }
}

/// A guard value the cache can hold: a reader count of zero is represented
/// as [`BorrowState::Free`], never as `Reading(0)`.
pub open spec fn valid_guard(g: BorrowState) -> bool {
    match g {
        BorrowState::Reading(n) => n >= 1,
        _ => true,
    }
}

impl TaskCache {
    /// Well-formedness: no two entries carry the same identifier, and every
    /// guard is a value the state machine can produce.
    pub open spec fn wf(self) -> bool {
        &&& forall|i: int, j: int|
            0 <= i < j < self@.entries.len() ==> self@.entries[i].task.uuid
                != self@.entries[j].task.uuid
        &&& forall|i: int| 0 <= i < self@.entries.len() ==> valid_guard(#[trigger] self@.entries[i].guard)
    }

    /// Creates a new, empty TaskCache that will skip the given statuses on
    /// load.
    pub fn new(ignore: Vec<TaskStatus>) -> (c: TaskCache)
        ensures
            c.wf(),
            c@.entries == Seq::<EntryView>::empty(),
            c@.ignore == ignore@,
    {
        let c = TaskCache { entries: Vec::new(), ignore };
        proof {
            assert(c@.entries =~= Seq::<EntryView>::empty());
        }
        c
    }

    /// The statuses this TaskCache ignores on load.
    pub fn ignore(&self) -> (r: &Vec<TaskStatus>)
        ensures
            r@ == self@.ignore,
    {
        &self.ignore
    }

    /// Unconditionally discards all cache contents, unsaved changes
    /// included. Never fails.
    pub fn reset(&mut self)
        ensures
            final(self).wf(),
            final(self)@.entries == Seq::<EntryView>::empty(),
            final(self)@.ignore == old(self)@.ignore,
    {
        self.entries.clear();
        proof {
            assert(self@.entries =~= Seq::<EntryView>::empty());
        }
    }

    /// The index of the entry carrying the given identifier, where one does.
    fn find(&self, uuid: TaskId) -> (r: Option<usize>)
        requires
            self.wf(),
        ensures
            match r {
                Some(i) => i < self@.entries.len() && self@.entries[i as int].task.uuid == uuid
                    && i == idx_of(self@.entries, uuid),
                None => !contains_id(self@.entries, uuid),
            },
    {
        let n = self.entries.len();
        let mut i: usize = 0;
        while i < n
            invariant
                self.wf(),
                n == self@.entries.len(),
                i <= n,
                forall|j: int| 0 <= j < i ==> self@.entries[j].task.uuid != uuid,
            decreases n - i,
        {
            if self.entries[i].task.uuid() == uuid {
                proof {
                    assert(self@.entries[i as int].task.uuid == uuid);
                    assert(contains_id(self@.entries, uuid));
                    let k = idx_of(self@.entries, uuid);
                    assert(0 <= k < self@.entries.len() && self@.entries[k].task.uuid == uuid);
                    if k < i as int {
                        assert(self@.entries[k].task.uuid != self@.entries[i as int].task.uuid);
                    } else if (i as int) < k {
                        assert(self@.entries[i as int].task.uuid != self@.entries[k].task.uuid);
                    }
                }
                return Some(i);
            }
            i = i + 1;
        }
        None
    }

    /// Inserts or replaces the entry for the task's identifier, with the
    /// given dirty mark and a free guard.
    fn put(&mut self, task: Task, state: MutationState)
        requires
            old(self).wf(),
        ensures
            final(self).wf(),
            final(self)@.ignore == old(self)@.ignore,
            ({
                let e = EntryView { task: task@, state, guard: BorrowState::Free };
                if contains_id(old(self)@.entries, task@.uuid) {
                    final(self)@.entries == old(self)@.entries.update(
                        idx_of(old(self)@.entries, task@.uuid),
                        e,
                    )
                } else {
                    final(self)@.entries == old(self)@.entries.push(e)
                }
            }),
    {
        let uuid = task.uuid();
        let entry = Entry { task, state, guard: BorrowState::Free };
        match self.find(uuid) {
            Some(i) => {
                self.entries.set(i, entry);
                proof {
                    let e = EntryView { task: entry.task@, state, guard: BorrowState::Free };
                    assert(self@.entries =~= old(self)@.entries.update(i as int, e));
                }
            },
            None => {
                self.entries.push(entry);
                proof {
                    let e = EntryView { task: entry.task@, state, guard: BorrowState::Free };
                    assert(self@.entries =~= old(self)@.entries.push(e));
                }
            },
        }
    }

    /// Sets a task into the cache: the entry for its identifier is inserted
    /// or replaced, marked dirty, and will be saved by the next write.
    pub fn set(&mut self, task: Task)
        requires
            old(self).wf(),
        ensures
            final(self).wf(),
            final(self)@.ignore == old(self)@.ignore,
            ({
                let e = EntryView { task: task@, state: MutationState::Dirty, guard: BorrowState::Free };
                if contains_id(old(self)@.entries, task@.uuid) {
                    final(self)@.entries == old(self)@.entries.update(
                        idx_of(old(self)@.entries, task@.uuid),
                        e,
                    )
                } else {
                    final(self)@.entries == old(self)@.entries.push(e)
                }
            }),
    {
        self.put(task, MutationState::Dirty);
    }

    /// A TaskCell for the entry with the given identifier, or absent if not
    /// cached.
    pub fn get_ptr(&self, uuid: &TaskId) -> (r: Option<TaskCell>)
        requires
            self.wf(),
        ensures
            match r {
                Some(c) => contains_id(self@.entries, *uuid) && c@ == *uuid,
                None => !contains_id(self@.entries, *uuid),
            },
    {
        match self.find(*uuid) {
            Some(_) => Some(TaskCell { uuid: *uuid }),
            None => None,
        }
    }

    /// One TaskCell per cache entry, in storage order.
    pub fn iter(&self) -> (r: Vec<TaskCell>)
        requires
            self.wf(),
        ensures
            r@.len() == self@.entries.len(),
            forall|i: int| 0 <= i < r@.len() ==> r@[i]@ == self@.entries[i].task.uuid,
    {
        let n = self.entries.len();
        let mut out: Vec<TaskCell> = Vec::new();
        let mut i: usize = 0;
        while i < n
            invariant
                n == self@.entries.len(),
                i <= n,
                out@.len() == i,
                forall|j: int| 0 <= j < i ==> out@[j]@ == self@.entries[j].task.uuid,
            decreases n - i,
        {
            out.push(TaskCell { uuid: self.entries[i].task.uuid() });
            i = i + 1;
        }
        out
    }
}

impl TaskCell {
    /// The identifier of the entry this cell points at.
    pub fn uuid(&self) -> (id: TaskId)
        ensures
            id == self@,
    {
        self.uuid
    }

    /// Tries to borrow the task read-only: absent if the entry is gone, a
    /// writer holds it, or the reader count cannot grow. On success one more
    /// reader holds the entry; the task, its dirty mark and the rest of the
    /// cache are untouched.
    pub fn borrow(&self, cache: &mut TaskCache) -> (r: Option<TaskRef>)
        requires
            old(cache).wf(),
        ensures
            final(cache).wf(),
            final(cache)@.ignore == old(cache)@.ignore,
            !contains_id(old(cache)@.entries, self@) ==> r is None && final(cache)@.entries
                == old(cache)@.entries,
            contains_id(old(cache)@.entries, self@) ==> ({
                let i = idx_of(old(cache)@.entries, self@);
                let e = old(cache)@.entries[i];
                match acquire_read(e.guard) {
                    None => r is None && final(cache)@.entries == old(cache)@.entries,
                    Some(g) => r matches Some(h) && h@.uuid == self@ && h@.task == e.task
                        && final(cache)@.entries == old(cache)@.entries.update(i, with_guard(e, g)),
                }
            }),
    {
        match cache.find(self.uuid) {
            None => None,
            Some(i) => {
                let guard = cache.entries[i].guard;
                let state = cache.entries[i].state;
                match guard {
                    BorrowState::Writing => None,
                    BorrowState::Reading(n) => {
                        if n == usize::MAX {
                            None
                        } else {
                            let task = cache.entries[i].task.clone();
                            let handle = TaskRef { uuid: self.uuid, task: task.clone() };
                            cache.entries.set(
                                i,
                                Entry { task, state, guard: BorrowState::Reading(n + 1) },
                            );
                            proof {
                                let es = old(cache)@.entries;
                                assert(cache@.entries =~= es.update(
                                    i as int,
                                    with_guard(es[i as int], BorrowState::Reading((n + 1) as usize)),
                                ));
                            }
                            Some(handle)
                        }
                    },
                    BorrowState::Free => {
                        let task = cache.entries[i].task.clone();
                        let handle = TaskRef { uuid: self.uuid, task: task.clone() };
                        cache.entries.set(i, Entry { task, state, guard: BorrowState::Reading(1) });
                        proof {
                            let es = old(cache)@.entries;
                            assert(cache@.entries =~= es.update(
                                i as int,
                                with_guard(es[i as int], BorrowState::Reading(1)),
                            ));
                        }
                        Some(handle)
                    },
                }
            },
        }
    }

    /// Tries to borrow the task read-write: absent if the entry is gone or
    /// any borrow (of either kind) is held. On success the entry is marked
    /// dirty at once — taking a mutable handle counts as a mutation whether
    /// or not the caller changes anything — and a writer holds the entry
    /// until the handle is given back with [`TaskCache::release_mut`].
    pub fn borrow_mut(&self, cache: &mut TaskCache) -> (r: Option<TaskMut>)
        requires
            old(cache).wf(),
        ensures
            final(cache).wf(),
            final(cache)@.ignore == old(cache)@.ignore,
            !contains_id(old(cache)@.entries, self@) ==> r is None && final(cache)@.entries
                == old(cache)@.entries,
            contains_id(old(cache)@.entries, self@) ==> ({
                let i = idx_of(old(cache)@.entries, self@);
                let e = old(cache)@.entries[i];
                if e.guard is Free {
                    r matches Some(h) && h@.uuid == self@ && h@.task == e.task
                        && final(cache)@.entries == old(cache)@.entries.update(
                        i,
                        (EntryView {
                            task: e.task,
                            state: MutationState::Dirty,
                            guard: BorrowState::Writing,
                        }),
                    )
                } else {
                    r is None && final(cache)@.entries == old(cache)@.entries
                }
            }),
    {
        match cache.find(self.uuid) {
            None => None,
            Some(i) => {
                match cache.entries[i].guard {
                    BorrowState::Free => {
                        let task = cache.entries[i].task.clone();
                        let handle = TaskMut { uuid: self.uuid, task: task.clone() };
                        cache.entries.set(
                            i,
                            Entry {
                                task,
                                state: MutationState::Dirty,
                                guard: BorrowState::Writing,
                            },
                        );
                        proof {
                            let es = old(cache)@.entries;
                            assert(cache@.entries =~= es.update(
                                i as int,
                                EntryView {
                                    task: es[i as int].task,
                                    state: MutationState::Dirty,
                                    guard: BorrowState::Writing,
                                },
                            ));
                        }
                        Some(handle)
                    },
                    _ => None,
                }
            },
        }
    }
}

impl TaskCache {
    /// Gives a read handle back: the reader it stood for leaves the entry's
    /// guard. A handle whose entry is gone, or whose guard no reader holds,
    /// changes nothing.
    pub fn release(&mut self, handle: TaskRef)
        requires
            old(self).wf(),
        ensures
            final(self).wf(),
            final(self)@.ignore == old(self)@.ignore,
            !contains_id(old(self)@.entries, handle@.uuid) ==> final(self)@.entries == old(
                self,
            )@.entries,
            contains_id(old(self)@.entries, handle@.uuid) ==> ({
                let i = idx_of(old(self)@.entries, handle@.uuid);
                let e = old(self)@.entries[i];
                match release_read(e.guard) {
                    None => final(self)@.entries == old(self)@.entries,
                    Some(g) => final(self)@.entries == old(self)@.entries.update(
                        i,
                        with_guard(e, g),
                    ),
                }
            }),
    {
        match self.find(handle.uuid) {
            None => {},
            Some(i) => {
                let state = self.entries[i].state;
                match self.entries[i].guard {
                    BorrowState::Reading(n) => {
                        proof {
                            assert(self@.entries[i as int].guard == BorrowState::Reading(n));
                            assert(valid_guard(self@.entries[i as int].guard));
                        }
                        let guard = if n == 1 {
                            BorrowState::Free
                        } else {
                            BorrowState::Reading(n - 1)
                        };
                        let task = self.entries[i].task.clone();
                        self.entries.set(i, Entry { task, state, guard });
                        proof {
                            let es = old(self)@.entries;
                            assert(self@.entries =~= es.update(
                                i as int,
                                with_guard(es[i as int], guard),
                            ));
                        }
                    },
                    _ => {},
                }
            },
        }
    }

    /// Gives a write handle back: the task value it carries replaces the
    /// entry's task, the writer leaves the guard, and the dirty mark stays
    /// as it was (dirty since the handle was taken). A handle whose entry is
    /// gone, whose guard no writer holds, or whose task no longer carries
    /// the identifier it was taken under, changes nothing — a stale or
    /// key-breaking edit is dropped.
    pub fn release_mut(&mut self, handle: TaskMut)
        requires
            old(self).wf(),
        ensures
            final(self).wf(),
            final(self)@.ignore == old(self)@.ignore,
            !contains_id(old(self)@.entries, handle@.uuid) ==> final(self)@.entries == old(
                self,
            )@.entries,
            contains_id(old(self)@.entries, handle@.uuid) ==> ({
                let i = idx_of(old(self)@.entries, handle@.uuid);
                let e = old(self)@.entries[i];
                if e.guard is Writing && handle@.task.uuid == handle@.uuid {
                    final(self)@.entries == old(self)@.entries.update(
                        i,
                        (EntryView { task: handle@.task, state: e.state, guard: BorrowState::Free }),
                    )
                } else {
                    final(self)@.entries == old(self)@.entries
                }
            }),
    {
        if handle.task.uuid() != handle.uuid {
            return ;
        }
        match self.find(handle.uuid) {
            None => {},
            Some(i) => {
                let state = self.entries[i].state;
                match self.entries[i].guard {
                    BorrowState::Writing => {
                        let ghost hv = handle@;
                        self.entries.set(
                            i,
                            Entry { task: handle.task, state, guard: BorrowState::Free },
                        );
                        proof {
                            let es = old(self)@.entries;
                            assert(self@.entries =~= es.update(
                                i as int,
                                EntryView {
                                    task: hv.task,
                                    state: es[i as int].state,
                                    guard: BorrowState::Free,
                                },
                            ));
                        }
                    },
                    _ => {},
                }
            },
        }
    }
}

/// The entries a load builds from the tasks the external query returned:
/// each task keyed by its identifier, clean and unguarded, in order of
/// first occurrence; of tasks sharing an identifier the last wins.
pub open spec fn loaded_entries(tasks: Seq<TaskView>) -> Seq<EntryView>
    decreases tasks.len(),
{
    if tasks.len() == 0 {
        Seq::empty()
    } else {
        let prev = loaded_entries(tasks.drop_last());
        let e = EntryView {
            task: tasks.last(),
            state: MutationState::Clean,
            guard: BorrowState::Free,
        };
        if contains_id(prev, tasks.last().uuid) {
            prev.update(idx_of(prev, tasks.last().uuid), e)
        } else {
            prev.push(e)
        }
    }
}

impl TaskCache {
    /// Whether any entry has unsaved local changes.
    fn any_dirty(&self) -> (b: bool)
        ensures
            b == has_dirty(self@.entries),
    {
        let n = self.entries.len();
        let mut i: usize = 0;
        while i < n
            invariant
                n == self@.entries.len(),
                i <= n,
                forall|j: int| 0 <= j < i ==> !(#[trigger] self@.entries[j].state is Dirty),
            decreases n - i,
        {
            if matches!(self.entries[i].state, MutationState::Dirty) {
                proof {
                    assert(self@.entries[i as int].state is Dirty);
                }
                return true;
            }
            i = i + 1;
        }
        false
    }

    /// The first step of a load: the dirty guard and the filter string. If
    /// any entry has unsaved changes this fails with `DirtyCacheError` and
    /// nothing is touched — write or reset first. Otherwise it hands out
    /// the filter string to put to the external query; the query result
    /// then goes to [`TaskCache::load_apply`].
    pub fn load_request(&self) -> (r: Result<String, Error>)
        ensures
            has_dirty(self@.entries) ==> (r matches Err(e) && e@ == (ErrorView {
                kind: ErrorKind::DirtyCacheError,
                cause: None,
            })),
            !has_dirty(self@.entries) ==> (r matches Ok(q) && q@ == query_spec(self@.ignore)),
    {
        if self.any_dirty() {
            Err(Error::new(ErrorKind::DirtyCacheError))
        } else {
            Ok(generate_query(self.ignore.as_slice()))
        }
    }

    /// The second step of a load: replaces the cache contents with the
    /// tasks the external query returned, every entry clean and unguarded.
    /// This is a full replace, not a merge. If any entry has unsaved
    /// changes this fails with `DirtyCacheError` and nothing is touched, so
    /// a load can never discard unsaved work.
    pub fn load_apply(&mut self, tasks: Vec<Task>) -> (r: Result<(), Error>)
        requires
            old(self).wf(),
        ensures
            final(self).wf(),
            final(self)@.ignore == old(self)@.ignore,
            has_dirty(old(self)@.entries) ==> (r matches Err(e) && e@ == (ErrorView {
                kind: ErrorKind::DirtyCacheError,
                cause: None,
            }) && final(self)@.entries == old(self)@.entries),
            !has_dirty(old(self)@.entries) ==> r is Ok && final(self)@.entries == loaded_entries(
                tasks@.map_values(|t: Task| t@),
            ),
    {
        if self.any_dirty() {
            return Err(Error::new(ErrorKind::DirtyCacheError));
        }
        self.entries.clear();
        proof {
            assert(self@.entries =~= Seq::<EntryView>::empty());
        }
        let ghost views = tasks@.map_values(|t: Task| t@);
        let n = tasks.len();
        let mut tasks = tasks;
        let mut i: usize = 0;
        proof {
            assert(loaded_entries(views.subrange(0, 0)) =~= Seq::<EntryView>::empty());
        }
        while i < n
            invariant
                self.wf(),
                n == tasks@.len(),
                views == tasks@.map_values(|t: Task| t@),
                i <= n,
                self@.entries == loaded_entries(views.subrange(0, i as int)),
                self@.ignore == old(self)@.ignore,
            decreases n - i,
        {
            let task = tasks[i].clone();
            self.put(task, MutationState::Clean);
            proof {
                let prefix = views.subrange(0, i as int);
                let step = views.subrange(0, i + 1 as int);
                assert(step.drop_last() =~= prefix);
                assert(step.last() == views[i as int]);
                assert(views[i as int] == tasks@[i as int]@);
            }
            i = i + 1;
        }
        proof {
            assert(views.subrange(0, views.len() as int) =~= views);
        }
        Ok(())
    }

    /// The first step of a write: the batch of every dirty task, in storage
    /// order, as it goes to the external save in one call. An empty batch
    /// means nothing is dirty: the write is a no-op that succeeds without
    /// an external call. After the save succeeds, [`TaskCache::write_commit`]
    /// clears the dirty marks; after a failed save nothing is cleared.
    pub fn write_request(&self) -> (r: Vec<Task>)
        ensures
            r@.map_values(|t: Task| t@) == dirty_views(self@.entries),
            r@.len() == 0 <==> !has_dirty(self@.entries),
    {
        let n = self.entries.len();
        let mut out: Vec<Task> = Vec::new();
        let mut i: usize = 0;
        proof {
            assert(out@.map_values(|t: Task| t@) =~= dirty_views(self@.entries.subrange(0, 0)));
        }
        while i < n
            invariant
                n == self@.entries.len(),
                i <= n,
                out@.map_values(|t: Task| t@) == dirty_views(self@.entries.subrange(0, i as int)),
            decreases n - i,
        {
            proof {
                let prefix = self@.entries.subrange(0, i as int);
                let step = self@.entries.subrange(0, i + 1 as int);
                assert(step.drop_last() =~= prefix);
                assert(step.last() == self@.entries[i as int]);
            }
            if matches!(self.entries[i].state, MutationState::Dirty) {
                let task = self.entries[i].task.clone();
                out.push(task);
                proof {
                    assert(out@.map_values(|t: Task| t@) =~= out@.drop_last().map_values(
                        |t: Task| t@,
                    ).push(out@.last()@));
                }
            }
            i = i + 1;
        }
        proof {
            assert(self@.entries.subrange(0, self@.entries.len() as int) =~= self@.entries);
            lemma_no_dirty_iff_empty_batch(self@.entries);
        }
        out
    }

    /// The second step of a write, after the external save succeeded:
    /// clears every dirty mark. Tasks, guards and the ignore list stay as
    /// they were.
    pub fn write_commit(&mut self)
        requires
            old(self).wf(),
        ensures
            final(self).wf(),
            final(self)@.ignore == old(self)@.ignore,
            final(self)@.entries.len() == old(self)@.entries.len(),
            forall|i: int|
                0 <= i < old(self)@.entries.len() ==> final(self)@.entries[i] == (EntryView {
                    task: old(self)@.entries[i].task,
                    state: MutationState::Clean,
                    guard: old(self)@.entries[i].guard,
                }),
    {
        let n = self.entries.len();
        let mut i: usize = 0;
        while i < n
            invariant
                self.wf(),
                n == self@.entries.len(),
                n == old(self)@.entries.len(),
                i <= n,
                self@.ignore == old(self)@.ignore,
                forall|j: int|
                    0 <= j < i ==> self@.entries[j] == (EntryView {
                        task: old(self)@.entries[j].task,
                        state: MutationState::Clean,
                        guard: old(self)@.entries[j].guard,
                    }),
                forall|j: int| i <= j < n ==> self@.entries[j] == old(self)@.entries[j],
            decreases n - i,
        {
            let ghost pre = self@.entries;
            let task = self.entries[i].task.clone();
            let guard = self.entries[i].guard;
            self.entries.set(i, Entry { task, state: MutationState::Clean, guard });
            proof {
                assert(self@.entries =~= pre.update(
                    i as int,
                    EntryView {
                        task: pre[i as int].task,
                        state: MutationState::Clean,
                        guard: pre[i as int].guard,
                    },
                ));
            }
            i = i + 1;
        }
    }

    /// Drives a refresh through the outcome of its save step: a refresh is
    /// a write followed by a load, so the caller first saves the batch from
    /// [`TaskCache::write_request`] and hands the outcome here. If the save
    /// failed, its error is surfaced unchanged, nothing is touched, and no
    /// filter string comes back — the load is never attempted. If it
    /// succeeded, the dirty marks are cleared and the filter string for the
    /// reload comes back, to be put to the external query and the result
    /// given to [`TaskCache::load_apply`].
    pub fn refresh_after_save(&mut self, saved: Result<(), Error>) -> (r: Result<String, Error>)
        requires
            old(self).wf(),
        ensures
            final(self).wf(),
            final(self)@.ignore == old(self)@.ignore,
            saved matches Err(e) ==> (final(self)@.entries == old(self)@.entries && (r matches Err(
                e2,
            ) && e2@ == e@)),
            saved is Ok ==> ({
                &&& final(self)@.entries.len() == old(self)@.entries.len()
                &&& forall|i: int|
                    0 <= i < old(self)@.entries.len() ==> final(self)@.entries[i] == (EntryView {
                        task: old(self)@.entries[i].task,
                        state: MutationState::Clean,
                        guard: old(self)@.entries[i].guard,
                    })
                &&& r matches Ok(q) && q@ == query_spec(old(self)@.ignore)
            }),
    {
        match saved {
            Err(e) => Err(e),
            Ok(_) => {
                self.write_commit();
                Ok(generate_query(self.ignore.as_slice()))
            },
        }
    }
}

/// No task reaches the save batch unless some entry is dirty: the batch of
/// a cache without unsaved changes is empty, and an empty batch means no
/// entry was dirty.
pub proof fn lemma_no_dirty_iff_empty_batch(entries: Seq<EntryView>)
    ensures
        dirty_views(entries).len() == 0 <==> !has_dirty(entries),
    decreases entries.len(),
{
    if entries.len() == 0 {
        assert(!has_dirty(entries));
    } else {
        lemma_no_dirty_iff_empty_batch(entries.drop_last());
        if entries.last().state is Dirty {
            assert(entries[entries.len() - 1].state is Dirty);
            assert(has_dirty(entries));
        } else {
            if has_dirty(entries) {
                let i = choose|i: int|
                    0 <= i < entries.len() && entries[i].state is Dirty;
                assert(i < entries.len() - 1);
                assert(entries.drop_last()[i].state is Dirty);
                assert(has_dirty(entries.drop_last()));
            }
            if has_dirty(entries.drop_last()) {
                let i = choose|i: int|
                    0 <= i < entries.drop_last().len() && entries.drop_last()[i].state is Dirty;
                assert(entries[i].state is Dirty);
                assert(has_dirty(entries));
            }
        }
    }
}

/// A cache without entries has nothing dirty: after a reset, a load always
/// passes the dirty guard, even though no write ever ran.
pub proof fn lemma_empty_cache_not_dirty(entries: Seq<EntryView>)
    requires
        entries.len() == 0,
    ensures
        !has_dirty(entries),
{
}

/// A cache whose entries are all clean has nothing dirty and an empty save
/// batch: after a commit, a second write is a no-op that issues no external
/// call.
pub proof fn lemma_all_clean_nothing_to_write(entries: Seq<EntryView>)
    requires
        forall|i: int| 0 <= i < entries.len() ==> (#[trigger] entries[i].state) is Clean,
    ensures
        !has_dirty(entries),
        dirty_views(entries) == Seq::<TaskView>::empty(),
{
    lemma_no_dirty_iff_empty_batch(entries);
    assert(dirty_views(entries) =~= Seq::<TaskView>::empty());
}

/// Every dirty entry's task is in the save batch, whatever its status: the
/// ignore list affects only what is loaded, so a cached task that moved
/// into an ignored state and was marked dirty is still saved.
pub proof fn lemma_dirty_task_is_written(entries: Seq<EntryView>, i: int)
    requires
        0 <= i < entries.len(),
        entries[i].state is Dirty,
    ensures
        dirty_views(entries).contains(entries[i].task),
    decreases entries.len(),
{
    if i == entries.len() - 1 {
        let batch = dirty_views(entries);
        assert(batch.last() == entries[i].task);
        assert(batch.contains(entries[i].task));
    } else {
        lemma_dirty_task_is_written(entries.drop_last(), i);
        let rest = dirty_views(entries.drop_last());
        let k = choose|k: int| 0 <= k < rest.len() && rest[k] == entries[i].task;
        if entries.last().state is Dirty {
            assert(dirty_views(entries)[k] == entries[i].task);
        } else {
            assert(dirty_views(entries)[k] == entries[i].task);
        }
        assert(dirty_views(entries).contains(entries[i].task));
    }
}

/// Everything a load builds is clean and unguarded: a fresh load never
/// carries unsaved changes, so a second load right after always passes the
/// dirty guard.
pub proof fn lemma_loaded_entries_clean(tasks: Seq<TaskView>)
    ensures
        forall|i: int|
            0 <= i < loaded_entries(tasks).len() ==> (#[trigger] loaded_entries(tasks)[i])
                == (EntryView {
                task: loaded_entries(tasks)[i].task,
                state: MutationState::Clean,
                guard: BorrowState::Free,
            }),
        !has_dirty(loaded_entries(tasks)),
    decreases tasks.len(),
{
    if tasks.len() > 0 {
        lemma_loaded_entries_clean(tasks.drop_last());
    }
}

/// Every entry a load builds holds one of the tasks the query returned:
/// with an external boundary that respects the filter string, no task in an
/// ignored status can appear in a freshly loaded cache.
pub proof fn lemma_loaded_entries_from_response(tasks: Seq<TaskView>, i: int)
    requires
        0 <= i < loaded_entries(tasks).len(),
    ensures
        tasks.contains(loaded_entries(tasks)[i].task),
    decreases tasks.len(),
{
    let built = loaded_entries(tasks);
    let prev = loaded_entries(tasks.drop_last());
    let t = tasks.last();
    assert(tasks[tasks.len() - 1] == t);
    assert(tasks.contains(t));
    if contains_id(prev, t.uuid) {
        let k = idx_of(prev, t.uuid);
        if i != k {
            assert(built[i] == prev[i]);
            lemma_loaded_entries_from_response(tasks.drop_last(), i);
            let w = choose|w: int|
                0 <= w < tasks.drop_last().len() && tasks.drop_last()[w] == prev[i].task;
            assert(tasks[w] == prev[i].task);
            assert(tasks.contains(prev[i].task));
        }
    } else {
        if i < prev.len() {
            assert(built[i] == prev[i]);
            lemma_loaded_entries_from_response(tasks.drop_last(), i);
            let w = choose|w: int|
                0 <= w < tasks.drop_last().len() && tasks.drop_last()[w] == prev[i].task;
            assert(tasks[w] == prev[i].task);
            assert(tasks.contains(prev[i].task));
        }
    }
}

/// Obtaining a mutable handle and giving it back at once, with the task
/// unchanged, still leaves the entry dirty for the next write: taking the
/// handle is what marks the entry, not the edit.
pub proof fn lemma_mutable_borrow_leaves_dirty(entries: Seq<EntryView>, i: int)
    requires
        0 <= i < entries.len(),
    ensures
        ({
            // the entry after TaskCell::borrow_mut succeeded on it
            let borrowed = entries.update(
                i,
                (EntryView {
                    task: entries[i].task,
                    state: MutationState::Dirty,
                    guard: BorrowState::Writing,
                }),
            );
            // the entry after TaskCache::release_mut put the task back untouched
            let released = borrowed.update(
                i,
                (EntryView {
                    task: entries[i].task,
                    state: borrowed[i].state,
                    guard: BorrowState::Free,
                }),
            );
            released[i].state is Dirty && released[i].task == entries[i].task && has_dirty(released)
        }),
{
}

impl Default for TaskCache {
    /// Equivalent to `TaskCache::new(vec![Completed, Deleted])`: completed
    /// and deleted tasks are numerous and rarely need bulk operations, so
    /// they are skipped on load by default.
    fn default() -> (c: Self)
        ensures
            c.wf(),
            c@.entries == Seq::<EntryView>::empty(),
            c@.ignore == seq![TaskStatus::Completed, TaskStatus::Deleted],
    {
        let c = TaskCache::new(vec![TaskStatus::Completed, TaskStatus::Deleted]);
        proof {
            assert(c@.ignore =~= seq![TaskStatus::Completed, TaskStatus::Deleted]);
        }
        c
    }
}

} // verus!
