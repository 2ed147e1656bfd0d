use vstd::prelude::*;

use crate::allocator::allocate_next_index;
use crate::record::{decoded_tags, task_of_record, StoredTask, StoredTaskView};
use crate::task::{Task, TaskView};

verus! {

/// A record of the completed set: the stored row plus the moment it was
/// completed.
pub struct CompletedRecord {
    pub record: StoredTask,
    pub completed_at: i64,
}

/// Mathematical content of a completed record.
pub ghost struct CompletedRecordView {
    pub record: StoredTaskView,
    pub completed_at: i64,
}

impl View for CompletedRecord {
    type V = CompletedRecordView;

    open spec fn view(&self) -> CompletedRecordView {
        CompletedRecordView { record: self.record@, completed_at: self.completed_at }
    }
}

impl DeepView for CompletedRecord {
    type V = CompletedRecordView;

    open spec fn deep_view(&self) -> CompletedRecordView {
        self.view()
    }
}

/// A tombstone of the deleted set: the stored row plus the moment it was
/// deleted.
pub struct DeletedRecord {
    pub record: StoredTask,
    pub deleted_at: i64,
}

/// Mathematical content of a tombstone.
pub ghost struct DeletedRecordView {
    pub record: StoredTaskView,
    pub deleted_at: i64,
}

impl View for DeletedRecord {
    type V = DeletedRecordView;

    open spec fn view(&self) -> DeletedRecordView {
        DeletedRecordView { record: self.record@, deleted_at: self.deleted_at }
    }
}

impl DeepView for DeletedRecord {
    type V = DeletedRecordView;

    open spec fn deep_view(&self) -> DeletedRecordView {
        self.view()
    }
}

/// One line of the transaction log: an operation name and an opaque
/// payload describing the change, with the moment it was pushed.
pub struct LogEntry {
    pub operation: String,
    pub payload: String,
    pub created_at: i64,
}

/// Mathematical content of a log line.
pub ghost struct LogEntryView {
    pub operation: Seq<char>,
    pub payload: Seq<char>,
    pub created_at: i64,
}

impl View for LogEntry {
    type V = LogEntryView;

    open spec fn view(&self) -> LogEntryView {
        LogEntryView {
            operation: self.operation@,
            payload: self.payload@,
            created_at: self.created_at,
        }
    }
}

impl DeepView for LogEntry {
    type V = LogEntryView;

    open spec fn deep_view(&self) -> LogEntryView {
        self.view()
    }
}

/// The in-memory image of one environment's store: the three record sets
/// a task can live in over its lifetime, and the transaction log.
pub struct Store {
    pub active: Vec<StoredTask>,
    pub completed: Vec<CompletedRecord>,
    pub deleted: Vec<DeletedRecord>,
    pub log: Vec<LogEntry>,
}

/// Mathematical content of a store.
pub ghost struct StoreView {
    pub active: Seq<StoredTaskView>,
    pub completed: Seq<CompletedRecordView>,
    pub deleted: Seq<DeletedRecordView>,
    pub log: Seq<LogEntryView>,
}

impl View for Store {
    type V = StoreView;

    open spec fn view(&self) -> StoreView {
        StoreView {
            active: self.active.deep_view(),
            completed: self.completed.deep_view(),
            deleted: self.deleted.deep_view(),
            log: self.log.deep_view(),
        }
    }
}

/// The active set is kept ordered by index, strictly: that is also what
/// makes active indices unique.
pub open spec fn active_sorted(active: Seq<StoredTaskView>) -> bool {
    forall|i: int, j: int|
        0 <= i < j < active.len() ==> active[i].task_index < active[j].task_index
}

/// Every active index is positive and leaves room for a successor.
pub open spec fn active_indices_ok(active: Seq<StoredTaskView>) -> bool {
    forall|i: int| 0 <= i < active.len() ==> 1 <= #[trigger] active[i].task_index < i32::MAX
}

/// Some active task holds the index.
pub open spec fn has_active_index(active: Seq<StoredTaskView>, index: i32) -> bool {
    exists|i: int| 0 <= i < active.len() && active[i].task_index == index
}

/// No identifier is held twice across the live sets: at most one live
/// record per uid over the active and completed sets combined.
pub open spec fn live_uids_unique(s: StoreView) -> bool {
    &&& forall|i: int, j: int|
        0 <= i < j < s.active.len() ==> s.active[i].uid != s.active[j].uid
    &&& forall|i: int, j: int|
        0 <= i < j < s.completed.len() ==> s.completed[i].record.uid != s.completed[j].record.uid
    &&& forall|i: int, j: int|
        0 <= i < s.active.len() && 0 <= j < s.completed.len() ==> s.active[i].uid
            != s.completed[j].record.uid
}

/// No live record holds this identifier.
pub open spec fn uid_free(s: StoreView, uid: Seq<char>) -> bool {
    &&& forall|i: int| 0 <= i < s.active.len() ==> (#[trigger] s.active[i].uid) != uid
    &&& forall|i: int|
        0 <= i < s.completed.len() ==> (#[trigger] s.completed[i].record.uid) != uid
}

/// The caller-facing tasks a run of stored rows reads as, row for row.
pub open spec fn tasks_of_records(s: Seq<StoredTaskView>) -> Seq<TaskView> {
    Seq::new(s.len(), |i: int| task_of_record(s[i]))
}

/// The rows whose index is among `indices`, in store order.
pub open spec fn selected_records(active: Seq<StoredTaskView>, indices: Seq<i32>) -> Seq<
    StoredTaskView,
>
    decreases active.len(),
{
    if active.len() == 0 {
        Seq::empty()
    } else {
        let rest = selected_records(active.drop_last(), indices);
        if indices.contains(active.last().task_index) {
            rest.push(active.last())
        } else {
            rest
        }
    }
}

proof fn lemma_index_chain(s: Seq<StoredTaskView>, i: int, j: int)
    requires
        forall|k: int| 0 <= k && k + 1 < s.len() ==> #[trigger] s[k].task_index < s[k
            + 1].task_index,
        0 <= i < j < s.len(),
    ensures
        s[i].task_index < s[j].task_index,
    decreases j - i,
{
    if i + 1 < j {
        lemma_index_chain(s, i, j - 1);
    }
}

impl Store {
    /// The store's integrity: the active set ordered strictly by positive
    /// index, and one live record per uid.
    pub open spec fn wf(&self) -> bool {
        &&& active_sorted(self@.active)
        &&& active_indices_ok(self@.active)
        &&& live_uids_unique(self@)
    }

    /// A store with nothing in it.
    pub fn empty() -> (s: Store)
        ensures
            s@.active == Seq::<StoredTaskView>::empty(),
            s@.completed == Seq::<CompletedRecordView>::empty(),
            s@.deleted == Seq::<DeletedRecordView>::empty(),
            s@.log == Seq::<LogEntryView>::empty(),
            s.wf(),
    {
        let s = Store { active: Vec::new(), completed: Vec::new(), deleted: Vec::new(), log: Vec::new() };
        proof {
            assert(s@.active =~= Seq::<StoredTaskView>::empty());
            assert(s@.completed =~= Seq::<CompletedRecordView>::empty());
            assert(s@.deleted =~= Seq::<DeletedRecordView>::empty());
            assert(s@.log =~= Seq::<LogEntryView>::empty());
        }
        s
    }

    /// Whether some record of the active tail holds this uid.
    fn uid_in_active_from(&self, uid: &String, from: usize) -> (b: bool)
        ensures
            b == exists|i: int|
                from <= i < self@.active.len() && (#[trigger] self@.active[i].uid) == uid@,
    {
        let n = self.active.len();
        let mut k: usize = from;
        while k < n
            invariant
                from <= k <= n || (from > n && k == from),
                n == self@.active.len(),
                forall|i: int| from <= i < k ==> (#[trigger] self@.active[i].uid) != uid@,
            decreases n - k,
        {
            if self.active[k].uid.eq(uid) {
                assert(self@.active[k as int].uid == uid@);
                return true;
            }
            assert(self@.active[k as int].uid == self.active@[k as int].uid@);
            k = k + 1;
        }
        false
    }

    /// Whether some record of the completed tail holds this uid.
    fn uid_in_completed_from(&self, uid: &String, from: usize) -> (b: bool)
        ensures
            b == exists|i: int|
                from <= i < self@.completed.len() && (#[trigger] self@.completed[i].record.uid)
                    == uid@,
    {
        let n = self.completed.len();
        let mut k: usize = from;
        while k < n
            invariant
                from <= k <= n || (from > n && k == from),
                n == self@.completed.len(),
                forall|i: int|
                    from <= i < k ==> (#[trigger] self@.completed[i].record.uid) != uid@,
            decreases n - k,
        {
            if self.completed[k].record.uid.eq(uid) {
                assert(self@.completed[k as int].record.uid == uid@);
                return true;
            }
            assert(self@.completed[k as int].record.uid == self.completed@[k as int].record.uid@);
            k = k + 1;
        }
        false
    }

    /// Whether no live record holds this uid; a fresh identifier must.
    pub fn uid_is_free(&self, uid: &String) -> (b: bool)
        ensures
            b == uid_free(self@, uid@),
    {
        let in_active = self.uid_in_active_from(uid, 0);
        let in_completed = self.uid_in_completed_from(uid, 0);
        !in_active && !in_completed
    }

    /// Tests the store's integrity, so that an image loaded from outside
    /// can be held to it before the engine works on it.
    pub fn check_wf(&self) -> (b: bool)
        ensures
            b == self.wf(),
    {
        let n = self.active.len();
        let mut k: usize = 0;
        while k < n
            invariant
                k <= n,
                n == self@.active.len(),
                forall|i: int| 0 <= i < k ==> 1 <= #[trigger] self@.active[i].task_index
                    < i32::MAX,
                forall|i: int|
                    0 <= i < k && i + 1 < n ==> #[trigger] self@.active[i].task_index
                        < self@.active[i + 1].task_index,
            decreases n - k,
        {
            let idx = self.active[k].task_index;
            proof {
                assert(self@.active[k as int] == self.active@[k as int]@);
            }
            if idx < 1 || idx == i32::MAX {
                assert(!(1 <= self@.active[k as int].task_index < i32::MAX));
                assert(!active_indices_ok(self@.active));
                return false;
            }
            if k + 1 < n {
                proof {
                    assert(self@.active[k as int + 1] == self.active@[k as int + 1]@);
                }
                if self.active[k + 1].task_index <= idx {
                    assert(!active_sorted(self@.active));
                    return false;
                }
            }
            k = k + 1;
        }
        proof {
            assert forall|i: int, j: int|
                0 <= i < j < self@.active.len() implies self@.active[i].task_index
                < self@.active[j].task_index by {
                lemma_index_chain(self@.active, i, j);
            }
        }
        let mut a: usize = 0;
        while a < n
            invariant
                a <= n,
                n == self@.active.len(),
                active_sorted(self@.active),
                active_indices_ok(self@.active),
                forall|i: int, j: int|
                    0 <= i < a && i < j < n ==> self@.active[i].uid != self@.active[j].uid,
                forall|i: int, j: int|
                    0 <= i < a && 0 <= j < self@.completed.len() ==> self@.active[i].uid
                        != self@.completed[j].record.uid,
            decreases n - a,
        {
            proof {
                assert(self@.active[a as int] == self.active@[a as int]@);
            }
            if self.uid_in_active_from(&self.active[a].uid, a + 1) {
                proof {
                    let i = choose|i: int|
                        a + 1 <= i < self@.active.len() && self@.active[i].uid == self.active@[a as int].uid@;
                    assert(self@.active[a as int].uid == self@.active[i].uid);
                }
                assert(!live_uids_unique(self@));
                return false;
            }
            if self.uid_in_completed_from(&self.active[a].uid, 0) {
                proof {
                    let j = choose|j: int|
                        0 <= j < self@.completed.len() && self@.completed[j].record.uid
                            == self.active@[a as int].uid@;
                    assert(self@.active[a as int].uid == self@.completed[j].record.uid);
                }
                assert(!live_uids_unique(self@));
                return false;
            }
            a = a + 1;
        }
        let m = self.completed.len();
        let mut c: usize = 0;
        while c < m
            invariant
                c <= m,
                m == self@.completed.len(),
                n == self@.active.len(),
                active_sorted(self@.active),
                active_indices_ok(self@.active),
                forall|i: int, j: int|
                    0 <= i < j < n ==> self@.active[i].uid != self@.active[j].uid,
                forall|i: int, j: int|
                    0 <= i < n && 0 <= j < m ==> self@.active[i].uid
                        != self@.completed[j].record.uid,
                forall|i: int, j: int|
                    0 <= i < c && i < j < m ==> self@.completed[i].record.uid
                        != self@.completed[j].record.uid,
            decreases m - c,
        {
            proof {
                assert(self@.completed[c as int] == self.completed@[c as int]@);
            }
            if self.uid_in_completed_from(&self.completed[c].record.uid, c + 1) {
                proof {
                    let j = choose|j: int|
                        c + 1 <= j < self@.completed.len() && self@.completed[j].record.uid
                            == self.completed@[c as int].record.uid@;
                    assert(self@.completed[c as int].record.uid == self@.completed[j].record.uid);
                }
                assert(!live_uids_unique(self@));
                return false;
            }
            c = c + 1;
        }
        true
    }

    /// The position of the active record holding `index`, where one does.
    pub fn find_active(&self, index: i32) -> (r: Option<usize>)
        ensures
            match r {
                Some(p) => p < self@.active.len() && self@.active[p as int].task_index == index,
                None => !has_active_index(self@.active, index),
            },
    {
        let n = self.active.len();
        let mut k: usize = 0;
        while k < n
            invariant
                k <= n,
                n == self@.active.len(),
                forall|i: int| 0 <= i < k ==> #[trigger] self@.active[i].task_index != index,
            decreases n - k,
        {
            if self.active[k].task_index == index {
                return Some(k);
            }
            k = k + 1;
        }
        None
    }

    /// The index the next created task gets: the allocator of
    /// [`allocate_next_index`] run against this store's active set.
    pub fn next_available_index(&self) -> (r: i32)
        requires
            self.wf(),
        ensures
            r >= 1,
            r as int <= self@.active.len() + 1,
            !has_active_index(self@.active, r),
            forall|j: i32| 1 <= j < r ==> has_active_index(self@.active, j),
    {
        let n = self.active.len();
        let mut idxs: Vec<i32> = Vec::new();
        let mut k: usize = 0;
        while k < n
            invariant
                k <= n,
                n == self@.active.len(),
                idxs@.len() == k,
                forall|i: int| 0 <= i < k ==> idxs@[i] == #[trigger] self@.active[i].task_index,
            decreases n - k,
        {
            idxs.push(self.active[k].task_index);
            k = k + 1;
        }
        proof {
            assert forall|i: int, j: int| 0 <= i < j < idxs@.len() implies idxs@[i]
                < idxs@[j] by {
                assert(idxs@[i] == self@.active[i].task_index);
                assert(idxs@[j] == self@.active[j].task_index);
            }
            assert forall|i: int| 0 <= i < idxs@.len() implies #[trigger] idxs@[i] >= 1 by {
                assert(idxs@[i] == self@.active[i].task_index);
            }
            assert forall|i: int| 0 <= i < idxs@.len() implies #[trigger] idxs@[i] < i32::MAX by {
                assert(idxs@[i] == self@.active[i].task_index);
            }
        }
        let r = allocate_next_index(&idxs);
        proof {
            if has_active_index(self@.active, r) {
                let i = choose|i: int|
                    0 <= i < self@.active.len() && self@.active[i].task_index == r;
                assert(idxs@[i] == r);
                assert(idxs@.contains(r));
            }
            assert forall|j: i32| 1 <= j < r implies has_active_index(self@.active, j) by {
                assert(idxs@.contains(j));
                let i = choose|i: int| 0 <= i < idxs@.len() && idxs@[i] == j;
                assert(self@.active[i].task_index == j);
            }
        }
        r
    }

    /// The task list: every active row not yet marked `COMPLETED`, in
    /// index order. A completed-status row can sit in the active set —
    /// an edit writes any status given — and the listing leaves it out.
    pub fn list_tasks(&self) -> (r: Vec<Task>)
        ensures
            r.deep_view() == tasks_of_records(completion_rows(self@.active)),
    {
        let done: String = "COMPLETED".to_owned();
        let n = self.active.len();
        let mut out: Vec<Task> = Vec::new();
        let mut k: usize = 0;
        proof {
            assert(out.deep_view() =~= Seq::<TaskView>::empty());
            assert(self@.active.take(0) =~= Seq::<StoredTaskView>::empty());
        }
        while k < n
            invariant
                k <= n,
                n == self@.active.len(),
                done@ == crate::task::status_completed(),
                out.deep_view() == tasks_of_records(completion_rows(self@.active.take(k as int))),
            decreases n - k,
        {
            let ghost pre = out.deep_view();
            proof {
                assert(self@.active.take(k as int + 1).drop_last() =~= self@.active.take(
                    k as int,
                ));
                assert(self@.active.take(k as int + 1).last() == self@.active[k as int]);
                assert(self@.active[k as int] == self.active@[k as int]@);
            }
            if !self.active[k].status.eq(&done) {
                out.push(Task::from_record(&self.active[k]));
                proof {
                    assert(out.deep_view() =~= pre.push(task_of_record(self@.active[k as int])));
                    assert(out.deep_view() =~= tasks_of_records(
                        completion_rows(self@.active.take(k as int + 1)),
                    ));
                }
            } else {
                proof {
                    assert(out.deep_view() =~= tasks_of_records(
                        completion_rows(self@.active.take(k as int + 1)),
                    ));
                }
            }
            k = k + 1;
        }
        proof {
            assert(self@.active.take(n as int) =~= self@.active);
        }
        out
    }

    /// The active tasks whose index is among `indices`, in index order; an
    /// index no active task holds simply selects nothing.
    pub fn get_tasks_by_indices(&self, indices: &Vec<i32>) -> (r: Vec<Task>)
        ensures
            r.deep_view() == tasks_of_records(selected_records(self@.active, indices@)),
    {
        let n = self.active.len();
        let mut out: Vec<Task> = Vec::new();
        let mut k: usize = 0;
        while k < n
            invariant
                k <= n,
                n == self@.active.len(),
                out.deep_view() == tasks_of_records(
                    selected_records(self@.active.take(k as int), indices@),
                ),
            decreases n - k,
        {
            let ghost pre = out.deep_view();
            proof {
                assert(self@.active.take(k as int + 1).drop_last() =~= self@.active.take(k as int));
                assert(self@.active.take(k as int + 1).last() == self@.active[k as int]);
            }
            if contains_index(indices, self.active[k].task_index) {
                out.push(Task::from_record(&self.active[k]));
                proof {
                    assert(out.deep_view() =~= pre.push(task_of_record(self@.active[k as int])));
                    assert(out.deep_view() =~= tasks_of_records(
                        selected_records(self@.active.take(k as int + 1), indices@),
                    ));
                }
            } else {
                proof {
                    assert(out.deep_view() =~= tasks_of_records(
                        selected_records(self@.active.take(k as int + 1), indices@),
                    ));
                }
            }
            k = k + 1;
        }
        proof {
            assert(self@.active.take(n as int) =~= self@.active);
        }
        out
    }
}

/// The rows of the active set that still want work: every one whose
/// status is not `COMPLETED`, in index order.
pub open spec fn completion_rows(active: Seq<StoredTaskView>) -> Seq<StoredTaskView>
    decreases active.len(),
{
    if active.len() == 0 {
        Seq::empty()
    } else {
        let rest = completion_rows(active.drop_last());
        if active.last().status == crate::task::status_completed() {
            rest
        } else {
            rest.push(active.last())
        }
    }
}

impl Store {
    /// Index and summary of every active task not yet completed, in index
    /// order: what a shell completion of task indices shows.
    pub fn get_task_completions(&self) -> (r: Vec<(i32, String)>)
        ensures
            r@.len() == completion_rows(self@.active).len(),
            forall|i: int|
                0 <= i < r@.len() ==> (#[trigger] r@[i]).0 == completion_rows(
                    self@.active,
                )[i].task_index && r@[i].1@ == completion_rows(self@.active)[i].summary,
    {
        let done: String = "COMPLETED".to_owned();
        let n = self.active.len();
        let mut out: Vec<(i32, String)> = Vec::new();
        let mut k: usize = 0;
        while k < n
            invariant
                k <= n,
                n == self@.active.len(),
                done@ == crate::task::status_completed(),
                out@.len() == completion_rows(self@.active.take(k as int)).len(),
                forall|i: int|
                    0 <= i < out@.len() ==> (#[trigger] out@[i]).0 == completion_rows(
                        self@.active.take(k as int),
                    )[i].task_index && out@[i].1@ == completion_rows(
                        self@.active.take(k as int),
                    )[i].summary,
            decreases n - k,
        {
            proof {
                assert(self@.active.take(k as int + 1).drop_last() =~= self@.active.take(
                    k as int,
                ));
                assert(self@.active.take(k as int + 1).last() == self@.active[k as int]);
                assert(self@.active[k as int] == self.active@[k as int]@);
            }
            if !self.active[k].status.eq(&done) {
                out.push((self.active[k].task_index, self.active[k].summary.clone()));
            }
            k = k + 1;
        }
        proof {
            assert(self@.active.take(n as int) =~= self@.active);
        }
        out
    }

    /// The distinct tags over the active tasks not yet marked
    /// `COMPLETED`, each once, in the order first seen; a completed-status
    /// row contributes nothing, and ordering the result for display is
    /// the caller's concern.
    pub fn get_tags(&self) -> (r: Vec<String>)
        ensures
            r.deep_view().no_duplicates(),
            forall|t: Seq<char>| #[trigger]
                r.deep_view().contains(t) <==> exists|i: int|
                    0 <= i < self@.active.len() && self@.active[i].status
                        != crate::task::status_completed() && decoded_tags(
                        #[trigger] self@.active[i].categories,
                    ).contains(t),
    {
        let done: String = "COMPLETED".to_owned();
        let n = self.active.len();
        let mut out: Vec<String> = Vec::new();
        let mut k: usize = 0;
        proof {
            assert(out.deep_view() =~= Seq::<Seq<char>>::empty());
        }
        while k < n
            invariant
                k <= n,
                n == self@.active.len(),
                done@ == crate::task::status_completed(),
                out.deep_view().no_duplicates(),
                forall|t: Seq<char>| #[trigger]
                    out.deep_view().contains(t) <==> exists|i: int|
                        0 <= i < k && self@.active[i].status != crate::task::status_completed()
                            && decoded_tags(#[trigger] self@.active[i].categories).contains(t),
            decreases n - k,
        {
            let ghost pre = out.deep_view();
            proof {
                assert(self@.active[k as int] == self.active@[k as int]@);
            }
            if !self.active[k].status.eq(&done) {
                let tags = crate::record::decode_list_column(&self.active[k].categories);
                crate::tags::add_tags_to(&mut out, &tags);
                proof {
                    crate::tags::lemma_with_tags_added(pre, tags.deep_view());
                }
            }
            proof {
                assert forall|t: Seq<char>| #[trigger]
                    out.deep_view().contains(t) <==> exists|i: int|
                        0 <= i < k + 1 && self@.active[i].status
                            != crate::task::status_completed() && decoded_tags(
                            #[trigger] self@.active[i].categories,
                        ).contains(t) by {
                    if out.deep_view().contains(t) {
                        if pre.contains(t) {
                            let i = choose|i: int|
                                0 <= i < k && self@.active[i].status
                                    != crate::task::status_completed() && decoded_tags(
                                    #[trigger] self@.active[i].categories,
                                ).contains(t);
                            assert(decoded_tags(self@.active[i].categories).contains(t));
                        } else {
                            assert(self@.active[k as int].status
                                != crate::task::status_completed());
                            assert(decoded_tags(self@.active[k as int].categories).contains(t));
                        }
                    }
                    if exists|i: int|
                        0 <= i < k + 1 && self@.active[i].status
                            != crate::task::status_completed() && decoded_tags(
                            #[trigger] self@.active[i].categories,
                        ).contains(t) {
                        let i = choose|i: int|
                            0 <= i < k + 1 && self@.active[i].status
                                != crate::task::status_completed() && decoded_tags(
                                #[trigger] self@.active[i].categories,
                            ).contains(t);
                        if i < k {
                            assert(pre.contains(t));
                        }
                        assert(out.deep_view().contains(t));
                    }
                }
            }
            k = k + 1;
        }
        out
    }

    /// The distinct project names over the active tasks not yet marked
    /// `COMPLETED`, each once, in the order first seen; a completed-status
    /// row contributes nothing, and ordering the result for display is
    /// the caller's concern.
    pub fn get_projects(&self) -> (r: Vec<String>)
        ensures
            r.deep_view().no_duplicates(),
            forall|t: Seq<char>| #[trigger]
                r.deep_view().contains(t) <==> exists|i: int|
                    0 <= i < self@.active.len() && self@.active[i].status
                        != crate::task::status_completed() && crate::codec::stored_project(
                        #[trigger] self@.active[i].x_properties,
                    ) == Some(t),
    {
        let done: String = "COMPLETED".to_owned();
        let n = self.active.len();
        let mut out: Vec<String> = Vec::new();
        let mut k: usize = 0;
        proof {
            assert(out.deep_view() =~= Seq::<Seq<char>>::empty());
        }
        while k < n
            invariant
                k <= n,
                n == self@.active.len(),
                done@ == crate::task::status_completed(),
                out.deep_view().no_duplicates(),
                forall|t: Seq<char>| #[trigger]
                    out.deep_view().contains(t) <==> exists|i: int|
                        0 <= i < k && self@.active[i].status != crate::task::status_completed()
                            && crate::codec::stored_project(
                            #[trigger] self@.active[i].x_properties,
                        ) == Some(t),
            decreases n - k,
        {
            let ghost pre = out.deep_view();
            proof {
                assert(self@.active[k as int] == self.active@[k as int]@);
            }
            let found: Option<String> = if self.active[k].status.eq(&done) {
                None
            } else {
                match &self.active[k].x_properties {
                    Some(s) => crate::codec::project_in_props(s.as_str()),
                    None => None,
                }
            };
            proof {
                assert(found.deep_view() == (if self@.active[k as int].status
                    == crate::task::status_completed() {
                    None::<Seq<char>>
                } else {
                    crate::codec::stored_project(self@.active[k as int].x_properties)
                }));
            }
            match &found {
                Some(p) => {
                    if !crate::tags::contains_tag(&out, p) {
                        out.push(p.clone());
                        proof {
                            assert(out.deep_view() =~= pre.push(p@));
                            assert forall|i: int, j: int|
                                0 <= i < j < out.deep_view().len() implies out.deep_view()[i]
                                != out.deep_view()[j] by {
                                if j == out.deep_view().len() - 1 {
                                    assert(pre.contains(pre[i]));
                                }
                            }
                            assert(out.deep_view()[out.deep_view().len() - 1] == p@);
                            assert(out.deep_view().contains(p@));
                        }
                    } else {
                        proof {
                            assert(out.deep_view().contains(p@));
                        }
                    }
                },
                None => {},
            }
            proof {
                assert forall|t2: Seq<char>| pre.contains(t2) implies out.deep_view().contains(
                    t2,
                ) by {
                    let w = choose|w: int| 0 <= w < pre.len() && pre[w] == t2;
                    assert(out.deep_view()[w] == t2);
                }
                assert forall|t: Seq<char>| #[trigger]
                    out.deep_view().contains(t) <==> exists|i: int|
                        0 <= i < k + 1 && self@.active[i].status
                            != crate::task::status_completed() && crate::codec::stored_project(
                            #[trigger] self@.active[i].x_properties,
                        ) == Some(t) by {
                    if out.deep_view().contains(t) {
                        let w = choose|w: int|
                            0 <= w < out.deep_view().len() && out.deep_view()[w] == t;
                        if w < pre.len() {
                            assert(pre[w] == t);
                            assert(pre.contains(t));
                            let i = choose|i: int|
                                0 <= i < k && self@.active[i].status
                                    != crate::task::status_completed()
                                    && crate::codec::stored_project(
                                    #[trigger] self@.active[i].x_properties,
                                ) == Some(t);
                            assert(crate::codec::stored_project(self@.active[i].x_properties)
                                == Some(t));
                        } else {
                            assert(found.deep_view() == Some(t));
                            assert(self@.active[k as int].status
                                != crate::task::status_completed());
                            assert(crate::codec::stored_project(
                                self@.active[k as int].x_properties,
                            ) == Some(t));
                        }
                    }
                    if exists|i: int|
                        0 <= i < k + 1 && self@.active[i].status
                            != crate::task::status_completed() && crate::codec::stored_project(
                            #[trigger] self@.active[i].x_properties,
                        ) == Some(t) {
                        let i = choose|i: int|
                            0 <= i < k + 1 && self@.active[i].status
                                != crate::task::status_completed() && crate::codec::stored_project(
                                #[trigger] self@.active[i].x_properties,
                            ) == Some(t);
                        if i < k {
                            assert(pre.contains(t));
                            assert(out.deep_view().contains(t));
                        } else {
                            assert(found.deep_view() == Some(t));
                            assert(out.deep_view().contains(t));
                        }
                    }
                }
            }
            k = k + 1;
        }
        out
    }
}

/// Whether the list of indices holds `x`.
pub fn contains_index(v: &Vec<i32>, x: i32) -> (b: bool)
    ensures
        b == v@.contains(x),
{
    let n = v.len();
    let mut k: usize = 0;
    while k < n
        invariant
            k <= n,
            n == v@.len(),
            forall|i: int| 0 <= i < k ==> v@[i] != x,
        decreases n - k,
    {
        if v[k] == x {
            return true;
        }
        k = k + 1;
    }
    false
}

} // verus!
