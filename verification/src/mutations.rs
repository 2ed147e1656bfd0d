use vstd::prelude::*;

use crate::codec::{
    encode_tags, parse_opt_datetime, parsed_opt_timestamp, props_updated, stored_project,
    tags_json, update_props,
};
use crate::record::{
    clone_opt_string, decoded_tags, recomputed_pending, task_of_record, StoredTask,
    StoredTaskView,
};
use crate::store::{
    has_active_index, uid_free, CompletedRecord, CompletedRecordView, DeletedRecord,
    DeletedRecordView, Store, StoreView,
};
use crate::tags::applied_tags;
use crate::task::{pending_create, status_needs_action, Task, TaskView};

verus! {

/// What a mutating operation hands back: a success flag, the resulting
/// task or tasks, the allocated index for a creation, or an error text.
pub struct MutationResult {
    pub success: bool,
    pub task: Option<Task>,
    pub tasks: Option<Vec<Task>>,
    pub error: Option<String>,
    pub index: Option<i32>,
}

/// Mathematical content of a mutation result.
pub ghost struct MutationResultView {
    pub success: bool,
    pub task: Option<TaskView>,
    pub tasks: Option<Seq<TaskView>>,
    pub error: Option<Seq<char>>,
    pub index: Option<i32>,
}

impl View for MutationResult {
    type V = MutationResultView;

    open spec fn view(&self) -> MutationResultView {
        MutationResultView {
            success: self.success,
            task: self.task.deep_view(),
            tasks: self.tasks.deep_view(),
            error: self.error.deep_view(),
            index: self.index,
        }
    }
}

/// The fields a creation supplies; only the summary is owed.
pub struct TaskInput {
    pub summary: String,
    pub status: Option<String>,
    pub due: Option<String>,
    pub wait: Option<String>,
    pub priority: Option<i32>,
    pub project: Option<String>,
    pub tags: Option<Vec<String>>,
    pub url: Option<String>,
}

/// Mathematical content of a creation input.
pub ghost struct TaskInputView {
    pub summary: Seq<char>,
    pub status: Option<Seq<char>>,
    pub due: Option<Seq<char>>,
    pub wait: Option<Seq<char>>,
    pub priority: Option<i32>,
    pub project: Option<Seq<char>>,
    pub tags: Option<Seq<Seq<char>>>,
    pub url: Option<Seq<char>>,
}

impl View for TaskInput {
    type V = TaskInputView;

    open spec fn view(&self) -> TaskInputView {
        TaskInputView {
            summary: self.summary@,
            status: self.status.deep_view(),
            due: self.due.deep_view(),
            wait: self.wait.deep_view(),
            priority: self.priority,
            project: self.project.deep_view(),
            tags: self.tags.deep_view(),
            url: self.url.deep_view(),
        }
    }
}

/// The fields an edit overwrites; a field left out keeps its value. Tag
/// changes come as an additive and a subtractive set.
pub struct TaskChanges {
    pub summary: Option<String>,
    pub status: Option<String>,
    pub due: Option<String>,
    pub wait: Option<String>,
    pub priority: Option<i32>,
    pub project: Option<String>,
    pub add_tags: Option<Vec<String>>,
    pub remove_tags: Option<Vec<String>>,
    pub url: Option<String>,
}

/// Mathematical content of an edit.
pub ghost struct TaskChangesView {
    pub summary: Option<Seq<char>>,
    pub status: Option<Seq<char>>,
    pub due: Option<Seq<char>>,
    pub wait: Option<Seq<char>>,
    pub priority: Option<i32>,
    pub project: Option<Seq<char>>,
    pub add_tags: Option<Seq<Seq<char>>>,
    pub remove_tags: Option<Seq<Seq<char>>>,
    pub url: Option<Seq<char>>,
}

impl View for TaskChanges {
    type V = TaskChangesView;

    open spec fn view(&self) -> TaskChangesView {
        TaskChangesView {
            summary: self.summary.deep_view(),
            status: self.status.deep_view(),
            due: self.due.deep_view(),
            wait: self.wait.deep_view(),
            priority: self.priority,
            project: self.project.deep_view(),
            add_tags: self.add_tags.deep_view(),
            remove_tags: self.remove_tags.deep_view(),
            url: self.url.deep_view(),
        }
    }
}

/// The tag list a creation stores: the given one, or none at all.
pub open spec fn input_tags(input: TaskInputView) -> Seq<Seq<char>> {
    match input.tags {
        Some(t) => t,
        None => Seq::empty(),
    }
}

/// The stored row a creation writes: status defaulted, derived times
/// computed, the tag list normalized so no tag is stored twice, the
/// property bag serialized, and the record marked as never synced.
pub open spec fn record_for_input(
    input: TaskInputView,
    uid: Seq<char>,
    index: i32,
    now: i64,
) -> StoredTaskView {
    StoredTaskView {
        uid: uid,
        task_index: index,
        summary: input.summary,
        status: match input.status {
            Some(s) => s,
            None => status_needs_action(),
        },
        due: input.due,
        wait: input.wait,
        due_utc: parsed_opt_timestamp(input.due),
        wait_utc: parsed_opt_timestamp(input.wait),
        priority: input.priority,
        x_properties: Some(props_updated(None, input.project)),
        categories: Some(tags_json(crate::tags::with_tags_added(Seq::empty(), input_tags(input)))),
        url: input.url,
        attachments: Some(tags_json(Seq::empty())),
        href: None,
        pending_action: Some(pending_create()),
        last_synced: None,
        updated_at: now,
    }
}

/// The first index no active task holds.
pub open spec fn is_first_free(active: Seq<StoredTaskView>, r: i32) -> bool {
    &&& r >= 1
    &&& !has_active_index(active, r)
    &&& forall|j: i32| 1 <= j < r ==> has_active_index(active, j)
}

/// The index the allocator hands a creation against this active set.
pub open spec fn first_free_index(active: Seq<StoredTaskView>) -> i32 {
    choose|r: i32| is_first_free(active, r)
}

/// Whether `p` is the place a row with index `idx` takes in the ordered
/// active set.
pub open spec fn is_insert_pos(active: Seq<StoredTaskView>, idx: i32, p: int) -> bool {
    &&& 0 <= p <= active.len()
    &&& forall|i: int| 0 <= i < p ==> (#[trigger] active[i].task_index) < idx
    &&& forall|i: int| p <= i < active.len() ==> (#[trigger] active[i].task_index) > idx
}

/// The position a row with index `idx` takes in the ordered active set.
pub open spec fn sorted_insert_pos(active: Seq<StoredTaskView>, idx: i32) -> int {
    choose|p: int| is_insert_pos(active, idx, p)
}

/// The store after a creation: the new row in its ordered place, the
/// other sets untouched.
pub open spec fn added_store(
    s: StoreView,
    input: TaskInputView,
    uid: Seq<char>,
    now: i64,
) -> StoreView {
    let ix = first_free_index(s.active);
    let rec = record_for_input(input, uid, ix, now);
    StoreView { active: s.active.insert(sorted_insert_pos(s.active, ix), rec), ..s }
}

/// Puts a fresh row into the active set at its ordered place.
fn insert_sorted(store: &mut Store, rec: StoredTask)
    requires
        old(store).wf(),
        1 <= rec@.task_index < i32::MAX,
        !has_active_index(old(store)@.active, rec@.task_index),
        uid_free(old(store)@, rec@.uid),
    ensures
        final(store).wf(),
        final(store)@.active == old(store)@.active.insert(
            sorted_insert_pos(old(store)@.active, rec@.task_index),
            rec@,
        ),
        final(store)@.active.len() == old(store)@.active.len() + 1,
        final(store)@.completed == old(store)@.completed,
        final(store)@.deleted == old(store)@.deleted,
        final(store)@.log == old(store)@.log,
{
    let ghost s = store@.active;
    let idx = rec.task_index;
    let n = store.active.len();
    let mut p: usize = 0;
    while p < n && store.active[p].task_index < idx
        invariant
            p <= n,
            n == store@.active.len(),
            idx == rec@.task_index,
            s == store@.active,
            forall|i: int| 0 <= i < p ==> s[i].task_index < idx,
        decreases n - p,
    {
        proof {
            assert(store@.active[p as int] == store.active@[p as int]@);
        }
        p = p + 1;
    }
    proof {
        assert forall|i: int| p <= i < s.len() implies s[i].task_index > idx by {
            if i == p {
                assert(store@.active[p as int] == store.active@[p as int]@);
                assert(s[i].task_index != idx);
            } else {
                assert(s[p as int].task_index != idx);
                assert(s[p as int].task_index < s[i].task_index);
            }
        }
        assert(sorted_insert_pos(s, idx) == p as int) by {
            assert(is_insert_pos(s, idx, p as int));
            let q = sorted_insert_pos(s, idx);
            assert(is_insert_pos(s, idx, q));
            if q < p as int {
                assert(s[q].task_index < idx && s[q].task_index > idx);
            }
            if q > p as int {
                assert(s[p as int].task_index < idx && s[p as int].task_index > idx);
            }
        }
    }
    store.active.insert(p, rec);
    proof {
        let sp = store@.active;
        assert(store.active@ == old(store).active@.insert(p as int, rec));
        old(store).active@.insert_ensures(p as int, rec);
        s.insert_ensures(p as int, rec@);
        assert(sp =~= s.insert(p as int, rec@)) by {
            assert forall|i: int| 0 <= i < sp.len() implies sp[i] == s.insert(p as int, rec@)[i] by {
                assert(sp[i] == store.active@[i]@);
                if i < p {
                    assert(store.active@[i] == old(store).active@[i]);
                    assert(s[i] == old(store).active@[i]@);
                } else if i == p {
                    assert(store.active@[i] == rec);
                } else {
                    assert(store.active@[i] == old(store).active@[i - 1]);
                    assert(s[i - 1] == old(store).active@[i - 1]@);
                    assert(s.insert(p as int, rec@)[i] == s[i - 1]);
                }
            }
        }
        assert forall|i: int, j: int| 0 <= i < j < sp.len() implies sp[i].task_index
            < sp[j].task_index by {
            assert(sp[i] == s.insert(p as int, rec@)[i]);
            assert(sp[j] == s.insert(p as int, rec@)[j]);
        }
        assert forall|i: int| 0 <= i < sp.len() implies 1 <= #[trigger] sp[i].task_index
            < i32::MAX by {
            assert(sp[i] == s.insert(p as int, rec@)[i]);
        }
        assert forall|i: int, j: int| 0 <= i < j < sp.len() implies sp[i].uid != sp[j].uid by {
            assert(sp[i] == s.insert(p as int, rec@)[i]);
            assert(sp[j] == s.insert(p as int, rec@)[j]);
        }
        assert forall|i: int, j: int|
            0 <= i < sp.len() && 0 <= j < store@.completed.len() implies sp[i].uid
            != store@.completed[j].record.uid by {
            assert(sp[i] == s.insert(p as int, rec@)[i]);
        }
        assert(store@.completed =~= old(store)@.completed);
        assert(store@.deleted =~= old(store)@.deleted);
        assert(store@.log =~= old(store)@.log);
    }
}

/// Creates a task in the active set: the summary and other given fields
/// are stored, the status defaults, a fresh index comes from the
/// allocator, tags and the project go to their serialized columns, and
/// the record is marked as never synced. The stored row reads back with
/// the given tag list and project. A uid some live record already holds
/// is refused without touching the store.
pub fn add_task(store: &mut Store, input: &TaskInput, uid: String, now: i64) -> (r: MutationResult)
    requires
        old(store).wf(),
        old(store)@.active.len() + 1 < i32::MAX,
    ensures
        final(store).wf(),
        uid_free(old(store)@, uid@) ==> {
            &&& final(store)@ == added_store(old(store)@, input@, uid@, now)
            &&& is_first_free(old(store)@.active, first_free_index(old(store)@.active))
            &&& r@.success
            &&& r@.index == Some(first_free_index(old(store)@.active))
            &&& r@.task == Some(
                task_of_record(
                    record_for_input(
                        input@,
                        uid@,
                        first_free_index(old(store)@.active),
                        now,
                    ),
                ),
            )
            &&& r@.tasks is None
            &&& r@.error is None
            &&& task_of_record(
                record_for_input(input@, uid@, first_free_index(old(store)@.active), now),
            ).tags == crate::tags::with_tags_added(Seq::empty(), input_tags(input@))
            &&& task_of_record(
                record_for_input(input@, uid@, first_free_index(old(store)@.active), now),
            ).tags.no_duplicates()
            &&& forall|t: Seq<char>| #[trigger]
                task_of_record(
                    record_for_input(input@, uid@, first_free_index(old(store)@.active), now),
                ).tags.contains(t) <==> input_tags(input@).contains(t)
            &&& task_of_record(
                record_for_input(input@, uid@, first_free_index(old(store)@.active), now),
            ).project == input@.project
        },
        !uid_free(old(store)@, uid@) ==> {
            &&& final(store)@ == old(store)@
            &&& !r@.success
            &&& r@.error is Some
            &&& r@.task is None
            &&& r@.tasks is None
            &&& r@.index is None
        },
{
    if !store.uid_is_free(&uid) {
        return MutationResult {
            success: false,
            task: None,
            tasks: None,
            error: Some("a live record already holds this uid".to_owned()),
            index: None,
        };
    }
    let index = store.next_available_index();
    proof {
        assert(is_first_free(store@.active, index));
        assert(first_free_index(store@.active) == index) by {
            let w = first_free_index(store@.active);
            assert(is_first_free(store@.active, w));
            if w < index {
                assert(has_active_index(store@.active, w));
            }
            if w > index {
                assert(has_active_index(store@.active, index));
            }
        }
    }
    let empty_tags: Vec<String> = Vec::new();
    proof {
        assert(empty_tags.deep_view() =~= Seq::<Seq<char>>::empty());
    }
    let mut base_tags: Vec<String> = Vec::new();
    proof {
        assert(base_tags.deep_view() =~= Seq::<Seq<char>>::empty());
    }
    match &input.tags {
        Some(t) => crate::tags::add_tags_to(&mut base_tags, t),
        None => (),
    }
    proof {
        assert(base_tags.deep_view() == crate::tags::with_tags_added(
            Seq::empty(),
            input_tags(input@),
        ));
        crate::tags::lemma_with_tags_added(Seq::empty(), input_tags(input@));
        assert forall|t: Seq<char>| #[trigger]
            crate::tags::with_tags_added(Seq::empty(), input_tags(input@)).contains(t)
            <==> input_tags(input@).contains(t) by {
            assert(!Seq::<Seq<char>>::empty().contains(t));
        }
        assert(Seq::<Seq<char>>::empty().no_duplicates());
    }
    let categories = encode_tags(&base_tags);
    let attachments = encode_tags(&empty_tags);
    let rec = StoredTask {
        uid,
        task_index: index,
        summary: input.summary.clone(),
        status: match &input.status {
            Some(s) => s.clone(),
            None => "NEEDS-ACTION".to_owned(),
        },
        due: clone_opt_string(&input.due),
        wait: clone_opt_string(&input.wait),
        due_utc: parse_opt_datetime(&input.due),
        wait_utc: parse_opt_datetime(&input.wait),
        priority: input.priority,
        x_properties: Some(update_props(&None, &input.project)),
        categories: Some(categories),
        url: clone_opt_string(&input.url),
        attachments: Some(attachments),
        href: None,
        pending_action: Some("create".to_owned()),
        last_synced: None,
        updated_at: now,
    };
    proof {
        assert(rec@ == record_for_input(input@, uid@, index, now));
    }
    let task = Task::from_record(&rec);
    insert_sorted(store, rec);
    MutationResult {
        success: true,
        task: Some(task),
        tasks: None,
        error: None,
        index: Some(index),
    }
}

/// Creates a task with a freshly drawn identifier. The draw is random:
/// where it collides with a live record's uid — a constraint violation —
/// the creation is refused and the store stands unchanged; for any free
/// uid the creation behaves as [`add_task`] says.
pub fn create_task(store: &mut Store, input: &TaskInput, now: i64) -> (r: MutationResult)
    requires
        old(store).wf(),
        old(store)@.active.len() + 1 < i32::MAX,
    ensures
        final(store).wf(),
        r@.success ==> exists|uid: Seq<char>|
            #[trigger] uid_free(old(store)@, uid) && final(store)@ == added_store(
                old(store)@,
                input@,
                uid,
                now,
            ) && r@.index == Some(first_free_index(old(store)@.active)) && r@.task == Some(
                task_of_record(
                    record_for_input(input@, uid, first_free_index(old(store)@.active), now),
                ),
            ),
        !r@.success ==> final(store)@ == old(store)@ && r@.error is Some,
{
    let uid = crate::codec::fresh_uid();
    let ghost uv = uid@;
    let r = add_task(store, input, uid, now);
    proof {
        if r@.success {
            assert(uid_free(old(store)@, uv));
        }
    }
    r
}

/// The position of the active row holding `index`, where one does.
pub open spec fn active_pos(active: Seq<StoredTaskView>, index: i32) -> int {
    choose|p: int| 0 <= p < active.len() && (#[trigger] active[p].task_index) == index
}

/// The stored row an edit writes back: fields named by the change set
/// overwritten, tag changes applied additive-then-subtractive, derived
/// times recomputed, and the pending-action marker recomputed so that a
/// never-synced record stays marked for creation.
pub open spec fn modified_record(r: StoredTaskView, c: TaskChangesView, now: i64) -> StoredTaskView {
    let due = match c.due {
        Some(d) => Some(d),
        None => r.due,
    };
    let wait = match c.wait {
        Some(w) => Some(w),
        None => r.wait,
    };
    StoredTaskView {
        uid: r.uid,
        task_index: r.task_index,
        summary: match c.summary {
            Some(s) => s,
            None => r.summary,
        },
        status: match c.status {
            Some(s) => s,
            None => r.status,
        },
        due: due,
        wait: wait,
        due_utc: parsed_opt_timestamp(due),
        wait_utc: parsed_opt_timestamp(wait),
        priority: match c.priority {
            Some(p) => Some(p),
            None => r.priority,
        },
        x_properties: Some(props_updated(r.x_properties, c.project)),
        categories: Some(
            tags_json(applied_tags(decoded_tags(r.categories), c.add_tags, c.remove_tags)),
        ),
        url: match c.url {
            Some(u) => Some(u),
            None => r.url,
        },
        attachments: r.attachments,
        href: r.href,
        pending_action: recomputed_pending(r.pending_action),
        last_synced: r.last_synced,
        updated_at: now,
    }
}

/// The store after one per-index edit: the matched row rewritten in
/// place, or nothing at all where no active row holds the index.
pub open spec fn modify_step(s: StoreView, index: i32, c: TaskChangesView, now: i64) -> StoreView {
    if has_active_index(s.active, index) {
        let p = active_pos(s.active, index);
        StoreView { active: s.active.update(p, modified_record(s.active[p], c, now)), ..s }
    } else {
        s
    }
}

/// The task one per-index edit hands back: the rewritten row as the
/// caller sees it, or nothing where the index matched no active row.
pub open spec fn modify_step_task(
    s: StoreView,
    index: i32,
    c: TaskChangesView,
    now: i64,
) -> Option<TaskView> {
    if has_active_index(s.active, index) {
        let p = active_pos(s.active, index);
        Some(task_of_record(modified_record(s.active[p], c, now)))
    } else {
        None
    }
}

/// Edits the active task holding `index`, where one does: overwrites the
/// fields the change set names, applies tag changes additive first and
/// subtractive second, recomputes the derived times, and recomputes the
/// pending-action marker. An index no active task holds changes nothing
/// and answers nothing, which is not an error.
pub fn modify_single_task(
    store: &mut Store,
    index: i32,
    changes: &TaskChanges,
    now: i64,
) -> (r: Option<Task>)
    requires
        old(store).wf(),
    ensures
        final(store).wf(),
        final(store)@ == modify_step(old(store)@, index, changes@, now),
        r.deep_view() == modify_step_task(old(store)@, index, changes@, now),
        has_active_index(old(store)@.active, index) ==> {
            let rec = old(store)@.active[active_pos(old(store)@.active, index)];
            let new = modified_record(rec, changes@, now);
            &&& task_of_record(new).tags == applied_tags(
                decoded_tags(rec.categories),
                changes@.add_tags,
                changes@.remove_tags,
            )
            &&& task_of_record(new).project == (match changes@.project {
                Some(p) => Some(p),
                None => stored_project(rec.x_properties),
            })
        },
{
    match store.find_active(index) {
        None => {
            proof {
                assert(store@ == modify_step(old(store)@, index, changes@, now));
            }
            None
        },
        Some(p) => {
            let ghost s0 = store@.active;
            let ghost p_int = p as int;
            proof {
                assert(s0[p_int] == store.active@[p_int]@);
                assert(has_active_index(s0, index));
                assert(active_pos(s0, index) == p_int) by {
                    let q = active_pos(s0, index);
                    assert(0 <= q < s0.len() && s0[q].task_index == index);
                    if q != p_int {
                        assert(s0[q].task_index != s0[p_int].task_index);
                    }
                }
            }
            let rec = store.active.remove(p);
            let StoredTask {
                uid,
                task_index,
                summary,
                status,
                due,
                wait,
                due_utc: _,
                wait_utc: _,
                priority,
                x_properties,
                categories,
                url,
                attachments,
                href,
                pending_action,
                last_synced,
                updated_at: _,
            } = rec;
            let new_summary = match &changes.summary {
                Some(s) => s.clone(),
                None => summary,
            };
            let new_status = match &changes.status {
                Some(s) => s.clone(),
                None => status,
            };
            let new_due = match &changes.due {
                Some(d) => Some(d.clone()),
                None => due,
            };
            let new_wait = match &changes.wait {
                Some(w) => Some(w.clone()),
                None => wait,
            };
            let new_priority = match changes.priority {
                Some(pr) => Some(pr),
                None => priority,
            };
            let new_url = match &changes.url {
                Some(u) => Some(u.clone()),
                None => url,
            };
            let cur_tags = crate::record::decode_list_column(&categories);
            let new_tags = crate::tags::apply_tag_changes(
                cur_tags,
                &changes.add_tags,
                &changes.remove_tags,
            );
            let new_categories = Some(encode_tags(&new_tags));
            let new_props = Some(update_props(&x_properties, &changes.project));
            let new_pending = crate::record::recompute_pending(&pending_action);
            let new_due_utc = parse_opt_datetime(&new_due);
            let new_wait_utc = parse_opt_datetime(&new_wait);
            let newrec = StoredTask {
                uid,
                task_index,
                summary: new_summary,
                status: new_status,
                due: new_due,
                wait: new_wait,
                due_utc: new_due_utc,
                wait_utc: new_wait_utc,
                priority: new_priority,
                x_properties: new_props,
                categories: new_categories,
                url: new_url,
                attachments,
                href,
                pending_action: new_pending,
                last_synced,
                updated_at: now,
            };
            proof {
                assert(newrec@ == modified_record(s0[p_int], changes@, now));
            }
            let t = Task::from_record(&newrec);
            store.active.insert(p, newrec);
            proof {
                let sp = store@.active;
                let mid = old(store).active@.remove(p_int);
                mid.insert_ensures(p_int, newrec);
                assert(sp =~= s0.update(p_int, newrec@)) by {
                    assert forall|i: int| 0 <= i < sp.len() implies sp[i] == s0.update(
                        p_int,
                        newrec@,
                    )[i] by {
                        assert(sp[i] == store.active@[i]@);
                        if i < p_int {
                            assert(store.active@[i] == mid[i]);
                            assert(mid[i] == old(store).active@[i]);
                        } else if i == p_int {
                            assert(store.active@[i] == newrec);
                        } else {
                            assert(store.active@[i] == mid[i - 1]);
                            assert(mid[i - 1] == old(store).active@[i]);
                        }
                    }
                }
                assert forall|i: int, j: int| 0 <= i < j < sp.len() implies sp[i].task_index
                    < sp[j].task_index by {
                    assert(sp[i] == s0.update(p_int, newrec@)[i]);
                    assert(sp[j] == s0.update(p_int, newrec@)[j]);
                }
                assert forall|i: int| 0 <= i < sp.len() implies 1 <= #[trigger] sp[i].task_index
                    < i32::MAX by {
                    assert(sp[i] == s0.update(p_int, newrec@)[i]);
                }
                assert forall|i: int, j: int| 0 <= i < j < sp.len() implies sp[i].uid
                    != sp[j].uid by {
                    assert(sp[i] == s0.update(p_int, newrec@)[i]);
                    assert(sp[j] == s0.update(p_int, newrec@)[j]);
                }
                assert forall|i: int, j: int|
                    0 <= i < sp.len() && 0 <= j < store@.completed.len() implies sp[i].uid
                    != store@.completed[j].record.uid by {
                    assert(sp[i] == s0.update(p_int, newrec@)[i]);
                }
                assert(store@.completed =~= old(store)@.completed);
                assert(store@.deleted =~= old(store)@.deleted);
                assert(store@.log =~= old(store)@.log);
            }
            Some(t)
        },
    }
}

/// The store after a whole edit batch, index by index, left to right.
pub open spec fn modify_batch(
    s: StoreView,
    indices: Seq<i32>,
    c: TaskChangesView,
    now: i64,
) -> StoreView
    decreases indices.len(),
{
    if indices.len() == 0 {
        s
    } else {
        modify_batch(modify_step(s, indices[0], c, now), indices.skip(1), c, now)
    }
}

/// The tasks a whole edit batch hands back: one per matched index, in
/// request order; unmatched indices contribute nothing.
pub open spec fn modify_batch_tasks(
    s: StoreView,
    indices: Seq<i32>,
    c: TaskChangesView,
    now: i64,
) -> Seq<TaskView>
    decreases indices.len(),
{
    if indices.len() == 0 {
        Seq::empty()
    } else {
        let rest = modify_batch_tasks(modify_step(s, indices[0], c, now), indices.skip(1), c, now);
        match modify_step_task(s, indices[0], c, now) {
            Some(t) => seq![t] + rest,
            None => rest,
        }
    }
}

/// Edits every matched index of the batch and reports the edited tasks;
/// indices no active task holds are silently excluded, and the operation
/// still succeeds over the matched subset.
pub fn modify_tasks(
    store: &mut Store,
    indices: &Vec<i32>,
    changes: &TaskChanges,
    now: i64,
) -> (r: MutationResult)
    requires
        old(store).wf(),
    ensures
        final(store).wf(),
        final(store)@ == modify_batch(old(store)@, indices@, changes@, now),
        r@.success,
        r@.tasks == Some(modify_batch_tasks(old(store)@, indices@, changes@, now)),
        r@.task is None,
        r@.error is None,
        r@.index is None,
{
    let ghost full_store = modify_batch(old(store)@, indices@, changes@, now);
    let ghost full_tasks = modify_batch_tasks(old(store)@, indices@, changes@, now);
    let mut out: Vec<Task> = Vec::new();
    proof {
        assert(indices@.skip(0) =~= indices@);
        assert(out.deep_view() =~= Seq::<TaskView>::empty());
        assert(out.deep_view() + modify_batch_tasks(store@, indices@, changes@, now)
            =~= modify_batch_tasks(store@, indices@, changes@, now));
    }
    let n = indices.len();
    let mut k: usize = 0;
    while k < n
        invariant
            k <= n,
            n == indices@.len(),
            store.wf(),
            modify_batch(store@, indices@.skip(k as int), changes@, now) == full_store,
            out.deep_view() + modify_batch_tasks(store@, indices@.skip(k as int), changes@, now)
                == full_tasks,
        decreases n - k,
    {
        let ghost pre_store = store@;
        let ghost pre_out = out.deep_view();
        let ghost rest = indices@.skip(k as int);
        proof {
            assert(rest[0] == indices@[k as int]);
            assert(rest.skip(1) =~= indices@.skip(k as int + 1));
        }
        let res = modify_single_task(store, indices[k], changes, now);
        match res {
            Some(t) => {
                let ghost tv = t@;
                out.push(t);
                proof {
                    assert(out.deep_view() =~= pre_out.push(tv));
                    assert(modify_step_task(pre_store, indices@[k as int], changes@, now) == Some(
                        tv,
                    ));
                    assert(modify_batch_tasks(pre_store, rest, changes@, now) == seq![tv]
                        + modify_batch_tasks(store@, rest.skip(1), changes@, now));
                    assert(pre_out.push(tv) =~= pre_out + seq![tv]);
                    assert((pre_out + seq![tv]) + modify_batch_tasks(
                        store@,
                        indices@.skip(k as int + 1),
                        changes@,
                        now,
                    ) =~= pre_out + (seq![tv] + modify_batch_tasks(
                        store@,
                        indices@.skip(k as int + 1),
                        changes@,
                        now,
                    )));
                }
            },
            None => {
                proof {
                    assert(modify_step_task(pre_store, indices@[k as int], changes@, now)
                        is None);
                    assert(modify_batch_tasks(pre_store, rest, changes@, now)
                        == modify_batch_tasks(store@, rest.skip(1), changes@, now));
                }
            },
        }
        k = k + 1;
    }
    proof {
        assert(indices@.skip(n as int) =~= Seq::<i32>::empty());
        assert(out.deep_view() + modify_batch_tasks(store@, indices@.skip(n as int), changes@, now)
            =~= out.deep_view());
    }
    MutationResult { success: true, task: None, tasks: Some(out), error: None, index: None }
}

/// The change set that overwrites the status field alone.
pub open spec fn status_change(status: Seq<char>) -> TaskChangesView {
    TaskChangesView {
        summary: None,
        status: Some(status),
        due: None,
        wait: None,
        priority: None,
        project: None,
        add_tags: None,
        remove_tags: None,
        url: None,
    }
}

/// Edits the matched tasks down to their status field.
fn set_status(store: &mut Store, indices: &Vec<i32>, status: &str, now: i64) -> (r: MutationResult)
    requires
        old(store).wf(),
    ensures
        final(store).wf(),
        final(store)@ == modify_batch(old(store)@, indices@, status_change(status@), now),
        r@.success,
        r@.tasks == Some(modify_batch_tasks(old(store)@, indices@, status_change(status@), now)),
        r@.task is None,
        r@.error is None,
        r@.index is None,
{
    let changes = TaskChanges {
        summary: None,
        status: Some(status.to_owned()),
        due: None,
        wait: None,
        priority: None,
        project: None,
        add_tags: None,
        remove_tags: None,
        url: None,
    };
    proof {
        assert(changes@ == status_change(status@));
    }
    modify_tasks(store, indices, &changes, now)
}

/// Starts the matched tasks: their status becomes `IN-PROCESS`.
pub fn start_tasks(store: &mut Store, indices: &Vec<i32>, now: i64) -> (r: MutationResult)
    requires
        old(store).wf(),
    ensures
        final(store).wf(),
        final(store)@ == modify_batch(
            old(store)@,
            indices@,
            status_change(crate::task::status_in_process()),
            now,
        ),
        r@.success,
        r@.tasks == Some(
            modify_batch_tasks(
                old(store)@,
                indices@,
                status_change(crate::task::status_in_process()),
                now,
            ),
        ),
        r@.task is None,
        r@.error is None,
        r@.index is None,
{
    set_status(store, indices, "IN-PROCESS", now)
}

/// Stops the matched tasks: their status goes back to `NEEDS-ACTION`.
pub fn stop_tasks(store: &mut Store, indices: &Vec<i32>, now: i64) -> (r: MutationResult)
    requires
        old(store).wf(),
    ensures
        final(store).wf(),
        final(store)@ == modify_batch(
            old(store)@,
            indices@,
            status_change(status_needs_action()),
            now,
        ),
        r@.success,
        r@.tasks == Some(
            modify_batch_tasks(old(store)@, indices@, status_change(status_needs_action()), now),
        ),
        r@.task is None,
        r@.error is None,
        r@.index is None,
{
    set_status(store, indices, "NEEDS-ACTION", now)
}

/// The completed record a completion writes: the row as it stood, with
/// the status forced to `COMPLETED`, the pending-action marker
/// recomputed, and a fresh completion timestamp.
pub open spec fn completed_of(r: StoredTaskView, now: i64) -> CompletedRecordView {
    CompletedRecordView {
        record: StoredTaskView {
            status: crate::task::status_completed(),
            pending_action: recomputed_pending(r.pending_action),
            updated_at: now,
            ..r
        },
        completed_at: now,
    }
}

/// The store after one per-index completion: the matched row moved from
/// the active to the completed set.
pub open spec fn complete_step(s: StoreView, index: i32, now: i64) -> StoreView {
    if has_active_index(s.active, index) {
        let p = active_pos(s.active, index);
        StoreView {
            active: s.active.remove(p),
            completed: s.completed.push(completed_of(s.active[p], now)),
            ..s
        }
    } else {
        s
    }
}

/// The task one per-index completion hands back: the snapshot of the row
/// immediately before the transition, original status and all.
pub open spec fn complete_step_task(s: StoreView, index: i32, now: i64) -> Option<TaskView> {
    if has_active_index(s.active, index) {
        Some(task_of_record(s.active[active_pos(s.active, index)]))
    } else {
        None
    }
}

/// Completes the active task holding `index`, where one does: the full
/// record moves into the completed set with status forced to `COMPLETED`,
/// the pending-action marker recomputed and a fresh completion timestamp,
/// and leaves the active set. What comes back is the snapshot of the task
/// as it stood immediately before completion — callers see what was
/// completed, not the stored completed record.
pub fn complete_single_task(store: &mut Store, index: i32, now: i64) -> (r: Option<Task>)
    requires
        old(store).wf(),
    ensures
        final(store).wf(),
        final(store)@ == complete_step(old(store)@, index, now),
        r.deep_view() == complete_step_task(old(store)@, index, now),
{
    match store.find_active(index) {
        None => {
            proof {
                assert(store@ == complete_step(old(store)@, index, now));
            }
            None
        },
        Some(p) => {
            let ghost s0 = store@.active;
            let ghost c0 = store@.completed;
            let ghost p_int = p as int;
            proof {
                assert(s0[p_int] == store.active@[p_int]@);
                assert(has_active_index(s0, index));
                assert(active_pos(s0, index) == p_int) by {
                    let q = active_pos(s0, index);
                    assert(0 <= q < s0.len() && s0[q].task_index == index);
                    if q != p_int {
                        assert(s0[q].task_index != s0[p_int].task_index);
                    }
                }
            }
            let rec = store.active.remove(p);
            let snapshot = Task::from_record(&rec);
            let StoredTask {
                uid,
                task_index,
                summary,
                status: _,
                due,
                wait,
                due_utc,
                wait_utc,
                priority,
                x_properties,
                categories,
                url,
                attachments,
                href,
                pending_action,
                last_synced,
                updated_at: _,
            } = rec;
            let new_pending = crate::record::recompute_pending(&pending_action);
            let crec = CompletedRecord {
                record: StoredTask {
                    uid,
                    task_index,
                    summary,
                    status: "COMPLETED".to_owned(),
                    due,
                    wait,
                    due_utc,
                    wait_utc,
                    priority,
                    x_properties,
                    categories,
                    url,
                    attachments,
                    href,
                    pending_action: new_pending,
                    last_synced,
                    updated_at: now,
                },
                completed_at: now,
            };
            proof {
                assert(crec@ == completed_of(s0[p_int], now));
            }
            store.completed.push(crec);
            proof {
                let sp = store@.active;
                let cp = store@.completed;
                old(store).active@.remove_ensures(p_int);
                s0.remove_ensures(p_int);
                assert(sp =~= s0.remove(p_int)) by {
                    assert forall|i: int| 0 <= i < sp.len() implies sp[i] == s0.remove(
                        p_int,
                    )[i] by {
                        assert(sp[i] == store.active@[i]@);
                        if i < p_int {
                            assert(store.active@[i] == old(store).active@[i]);
                        } else {
                            assert(store.active@[i] == old(store).active@[i + 1]);
                        }
                    }
                }
                assert(cp =~= c0.push(crec@)) by {
                    assert forall|i: int| 0 <= i < cp.len() implies cp[i] == c0.push(crec@)[i] by {
                        assert(cp[i] == store.completed@[i]@);
                        if i < c0.len() {
                            assert(store.completed@[i] == old(store).completed@[i]);
                        }
                    }
                }
                assert forall|i: int, j: int| 0 <= i < j < sp.len() implies sp[i].task_index
                    < sp[j].task_index by {}
                assert forall|i: int| 0 <= i < sp.len() implies 1 <= #[trigger] sp[i].task_index
                    < i32::MAX by {}
                assert forall|i: int, j: int| 0 <= i < j < sp.len() implies sp[i].uid
                    != sp[j].uid by {}
                assert forall|i: int, j: int| 0 <= i < j < cp.len() implies cp[i].record.uid
                    != cp[j].record.uid by {
                    if j == cp.len() - 1 {
                        assert(cp[i].record.uid != s0[p_int].uid);
                    }
                }
                assert forall|i: int, j: int|
                    0 <= i < sp.len() && 0 <= j < cp.len() implies sp[i].uid
                    != cp[j].record.uid by {
                    if j == cp.len() - 1 {
                        if i < p_int {
                            assert(sp[i] == s0[i]);
                        } else {
                            assert(sp[i] == s0[i + 1]);
                        }
                    }
                }
                assert(store@.deleted =~= old(store)@.deleted);
                assert(store@.log =~= old(store)@.log);
            }
            Some(snapshot)
        },
    }
}

/// The store after a whole completion batch, index by index.
pub open spec fn complete_batch(s: StoreView, indices: Seq<i32>, now: i64) -> StoreView
    decreases indices.len(),
{
    if indices.len() == 0 {
        s
    } else {
        complete_batch(complete_step(s, indices[0], now), indices.skip(1), now)
    }
}

/// The snapshots a whole completion batch hands back, in request order.
pub open spec fn complete_batch_tasks(s: StoreView, indices: Seq<i32>, now: i64) -> Seq<TaskView>
    decreases indices.len(),
{
    if indices.len() == 0 {
        Seq::empty()
    } else {
        let rest = complete_batch_tasks(complete_step(s, indices[0], now), indices.skip(1), now);
        match complete_step_task(s, indices[0], now) {
            Some(t) => seq![t] + rest,
            None => rest,
        }
    }
}

/// Completes every matched index of the batch and reports the
/// pre-transition snapshots; unmatched indices are silently excluded.
pub fn complete_tasks(store: &mut Store, indices: &Vec<i32>, now: i64) -> (r: MutationResult)
    requires
        old(store).wf(),
    ensures
        final(store).wf(),
        final(store)@ == complete_batch(old(store)@, indices@, now),
        r@.success,
        r@.tasks == Some(complete_batch_tasks(old(store)@, indices@, now)),
        r@.task is None,
        r@.error is None,
        r@.index is None,
{
    let ghost full_store = complete_batch(old(store)@, indices@, now);
    let ghost full_tasks = complete_batch_tasks(old(store)@, indices@, now);
    let mut out: Vec<Task> = Vec::new();
    proof {
        assert(indices@.skip(0) =~= indices@);
        assert(out.deep_view() =~= Seq::<TaskView>::empty());
        assert(out.deep_view() + complete_batch_tasks(store@, indices@, now)
            =~= complete_batch_tasks(store@, indices@, now));
    }
    let n = indices.len();
    let mut k: usize = 0;
    while k < n
        invariant
            k <= n,
            n == indices@.len(),
            store.wf(),
            complete_batch(store@, indices@.skip(k as int), now) == full_store,
            out.deep_view() + complete_batch_tasks(store@, indices@.skip(k as int), now)
                == full_tasks,
        decreases n - k,
    {
        let ghost pre_store = store@;
        let ghost pre_out = out.deep_view();
        let ghost rest = indices@.skip(k as int);
        proof {
            assert(rest[0] == indices@[k as int]);
            assert(rest.skip(1) =~= indices@.skip(k as int + 1));
        }
        let res = complete_single_task(store, indices[k], now);
        match res {
            Some(t) => {
                let ghost tv = t@;
                out.push(t);
                proof {
                    assert(out.deep_view() =~= pre_out.push(tv));
                    assert(complete_step_task(pre_store, indices@[k as int], now) == Some(tv));
                    assert(complete_batch_tasks(pre_store, rest, now) == seq![tv]
                        + complete_batch_tasks(store@, rest.skip(1), now));
                    assert(pre_out.push(tv) =~= pre_out + seq![tv]);
                    assert((pre_out + seq![tv]) + complete_batch_tasks(
                        store@,
                        indices@.skip(k as int + 1),
                        now,
                    ) =~= pre_out + (seq![tv] + complete_batch_tasks(
                        store@,
                        indices@.skip(k as int + 1),
                        now,
                    )));
                }
            },
            None => {
                proof {
                    assert(complete_step_task(pre_store, indices@[k as int], now) is None);
                    assert(complete_batch_tasks(pre_store, rest, now) == complete_batch_tasks(
                        store@,
                        rest.skip(1),
                        now,
                    ));
                }
            },
        }
        k = k + 1;
    }
    proof {
        assert(indices@.skip(n as int) =~= Seq::<i32>::empty());
        assert(out.deep_view() + complete_batch_tasks(store@, indices@.skip(n as int), now)
            =~= out.deep_view());
    }
    MutationResult { success: true, task: None, tasks: Some(out), error: None, index: None }
}

/// The tombstone a soft delete writes: the row as it stood, with the
/// moment of deletion beside it.
pub open spec fn tombstone_of(r: StoredTaskView, now: i64) -> DeletedRecordView {
    DeletedRecordView { record: r, deleted_at: now }
}

/// The store after one per-index deletion: a never-synced row is removed
/// outright with no tombstone; any other row is copied into the deleted
/// set with a deletion timestamp and then removed from the active set.
pub open spec fn delete_step(s: StoreView, index: i32, now: i64) -> StoreView {
    if has_active_index(s.active, index) {
        let p = active_pos(s.active, index);
        if s.active[p].pending_action == Some(pending_create()) {
            StoreView { active: s.active.remove(p), ..s }
        } else {
            StoreView {
                active: s.active.remove(p),
                deleted: s.deleted.push(tombstone_of(s.active[p], now)),
                ..s
            }
        }
    } else {
        s
    }
}

/// The task one per-index deletion hands back: the row as it stood
/// immediately before deletion.
pub open spec fn delete_step_task(s: StoreView, index: i32, now: i64) -> Option<TaskView> {
    if has_active_index(s.active, index) {
        Some(task_of_record(s.active[active_pos(s.active, index)]))
    } else {
        None
    }
}

/// Deletes the active task holding `index`, where one does. A task whose
/// pending-action marker still says `create` was never synced upstream:
/// it is removed outright and leaves no tombstone. Any other task is
/// copied into the deleted set with a deletion timestamp, keeping its
/// last known status, and then removed from the active set. What comes
/// back is the task as it stood immediately before deletion.
pub fn delete_single_task(store: &mut Store, index: i32, now: i64) -> (r: Option<Task>)
    requires
        old(store).wf(),
    ensures
        final(store).wf(),
        final(store)@ == delete_step(old(store)@, index, now),
        r.deep_view() == delete_step_task(old(store)@, index, now),
{
    match store.find_active(index) {
        None => {
            proof {
                assert(store@ == delete_step(old(store)@, index, now));
            }
            None
        },
        Some(p) => {
            let ghost s0 = store@.active;
            let ghost d0 = store@.deleted;
            let ghost p_int = p as int;
            proof {
                assert(s0[p_int] == store.active@[p_int]@);
                assert(has_active_index(s0, index));
                assert(active_pos(s0, index) == p_int) by {
                    let q = active_pos(s0, index);
                    assert(0 <= q < s0.len() && s0[q].task_index == index);
                    if q != p_int {
                        assert(s0[q].task_index != s0[p_int].task_index);
                    }
                }
            }
            let rec = store.active.remove(p);
            let snapshot = Task::from_record(&rec);
            let soft = !crate::record::pending_is_create(&rec.pending_action);
            if soft {
                store.deleted.push(DeletedRecord { record: rec, deleted_at: now });
            }
            proof {
                let sp = store@.active;
                old(store).active@.remove_ensures(p_int);
                s0.remove_ensures(p_int);
                assert(sp =~= s0.remove(p_int)) by {
                    assert forall|i: int| 0 <= i < sp.len() implies sp[i] == s0.remove(
                        p_int,
                    )[i] by {
                        assert(sp[i] == store.active@[i]@);
                        if i < p_int {
                            assert(store.active@[i] == old(store).active@[i]);
                        } else {
                            assert(store.active@[i] == old(store).active@[i + 1]);
                        }
                    }
                }
                if soft {
                    assert(store@.deleted =~= d0.push(tombstone_of(s0[p_int], now))) by {
                        assert forall|i: int| 0 <= i < store@.deleted.len() implies store@.deleted[i]
                            == d0.push(tombstone_of(s0[p_int], now))[i] by {
                            assert(store@.deleted[i] == store.deleted@[i]@);
                            if i < d0.len() {
                                assert(store.deleted@[i] == old(store).deleted@[i]);
                            }
                        }
                    }
                } else {
                    assert(store@.deleted =~= d0);
                }
                assert forall|i: int, j: int| 0 <= i < j < sp.len() implies sp[i].task_index
                    < sp[j].task_index by {}
                assert forall|i: int| 0 <= i < sp.len() implies 1 <= #[trigger] sp[i].task_index
                    < i32::MAX by {}
                assert forall|i: int, j: int| 0 <= i < j < sp.len() implies sp[i].uid
                    != sp[j].uid by {}
                assert forall|i: int, j: int|
                    0 <= i < sp.len() && 0 <= j < store@.completed.len() implies sp[i].uid
                    != store@.completed[j].record.uid by {
                    if i < p_int {
                        assert(sp[i] == s0[i]);
                    } else {
                        assert(sp[i] == s0[i + 1]);
                    }
                }
                assert(store@.completed =~= old(store)@.completed);
                assert(store@.log =~= old(store)@.log);
            }
            Some(snapshot)
        },
    }
}

/// The store after a whole deletion batch, index by index.
pub open spec fn delete_batch(s: StoreView, indices: Seq<i32>, now: i64) -> StoreView
    decreases indices.len(),
{
    if indices.len() == 0 {
        s
    } else {
        delete_batch(delete_step(s, indices[0], now), indices.skip(1), now)
    }
}

/// The pre-deletion snapshots a whole deletion batch hands back.
pub open spec fn delete_batch_tasks(s: StoreView, indices: Seq<i32>, now: i64) -> Seq<TaskView>
    decreases indices.len(),
{
    if indices.len() == 0 {
        Seq::empty()
    } else {
        let rest = delete_batch_tasks(delete_step(s, indices[0], now), indices.skip(1), now);
        match delete_step_task(s, indices[0], now) {
            Some(t) => seq![t] + rest,
            None => rest,
        }
    }
}

/// Deletes every matched index of the batch and reports the tasks as
/// they stood before deletion; unmatched indices are silently excluded.
pub fn delete_tasks(store: &mut Store, indices: &Vec<i32>, now: i64) -> (r: MutationResult)
    requires
        old(store).wf(),
    ensures
        final(store).wf(),
        final(store)@ == delete_batch(old(store)@, indices@, now),
        r@.success,
        r@.tasks == Some(delete_batch_tasks(old(store)@, indices@, now)),
        r@.task is None,
        r@.error is None,
        r@.index is None,
{
    let ghost full_store = delete_batch(old(store)@, indices@, now);
    let ghost full_tasks = delete_batch_tasks(old(store)@, indices@, now);
    let mut out: Vec<Task> = Vec::new();
    proof {
        assert(indices@.skip(0) =~= indices@);
        assert(out.deep_view() =~= Seq::<TaskView>::empty());
        assert(out.deep_view() + delete_batch_tasks(store@, indices@, now)
            =~= delete_batch_tasks(store@, indices@, now));
    }
    let n = indices.len();
    let mut k: usize = 0;
    while k < n
        invariant
            k <= n,
            n == indices@.len(),
            store.wf(),
            delete_batch(store@, indices@.skip(k as int), now) == full_store,
            out.deep_view() + delete_batch_tasks(store@, indices@.skip(k as int), now)
                == full_tasks,
        decreases n - k,
    {
        let ghost pre_store = store@;
        let ghost pre_out = out.deep_view();
        let ghost rest = indices@.skip(k as int);
        proof {
            assert(rest[0] == indices@[k as int]);
            assert(rest.skip(1) =~= indices@.skip(k as int + 1));
        }
        let res = delete_single_task(store, indices[k], now);
        match res {
            Some(t) => {
                let ghost tv = t@;
                out.push(t);
                proof {
                    assert(out.deep_view() =~= pre_out.push(tv));
                    assert(delete_step_task(pre_store, indices@[k as int], now) == Some(tv));
                    assert(delete_batch_tasks(pre_store, rest, now) == seq![tv]
                        + delete_batch_tasks(store@, rest.skip(1), now));
                    assert(pre_out.push(tv) =~= pre_out + seq![tv]);
                    assert((pre_out + seq![tv]) + delete_batch_tasks(
                        store@,
                        indices@.skip(k as int + 1),
                        now,
                    ) =~= pre_out + (seq![tv] + delete_batch_tasks(
                        store@,
                        indices@.skip(k as int + 1),
                        now,
                    )));
                }
            },
            None => {
                proof {
                    assert(delete_step_task(pre_store, indices@[k as int], now) is None);
                    assert(delete_batch_tasks(pre_store, rest, now) == delete_batch_tasks(
                        store@,
                        rest.skip(1),
                        now,
                    ));
                }
            },
        }
        k = k + 1;
    }
    proof {
        assert(indices@.skip(n as int) =~= Seq::<i32>::empty());
        assert(out.deep_view() + delete_batch_tasks(store@, indices@.skip(n as int), now)
            =~= out.deep_view());
    }
    MutationResult { success: true, task: None, tasks: Some(out), error: None, index: None }
}

/// The row a relocation writes into the destination: identity and every
/// descriptive field kept, only the index re-allocated there.
pub open spec fn moved_record(r: StoredTaskView, index: i32) -> StoredTaskView {
    StoredTaskView { task_index: index, ..r }
}

/// What one or more relocation steps leave behind: both stores, the
/// tasks handed back, and whether the run went through.
pub ghost struct MoveOutcome {
    pub source: StoreView,
    pub dest: StoreView,
    pub tasks: Seq<TaskView>,
    pub ok: bool,
}

/// One per-index relocation: the matched row leaves the source active
/// set and enters the destination active set under a freshly allocated
/// destination index, identity untouched. A uid already live in the
/// destination is a constraint violation and stops the run.
pub open spec fn move_step(src: StoreView, dst: StoreView, index: i32) -> MoveOutcome {
    if !has_active_index(src.active, index) {
        MoveOutcome { source: src, dest: dst, tasks: Seq::empty(), ok: true }
    } else {
        let p = active_pos(src.active, index);
        let r = src.active[p];
        if !uid_free(dst, r.uid) {
            MoveOutcome { source: src, dest: dst, tasks: Seq::empty(), ok: false }
        } else {
            let ix = first_free_index(dst.active);
            let moved = moved_record(r, ix);
            MoveOutcome {
                source: StoreView { active: src.active.remove(p), ..src },
                dest: StoreView {
                    active: dst.active.insert(sorted_insert_pos(dst.active, ix), moved),
                    ..dst
                },
                tasks: seq![task_of_record(moved)],
                ok: true,
            }
        }
    }
}

/// A whole relocation batch, index by index; a failing step stops the
/// run and leaves the steps already taken in place.
pub open spec fn move_batch(src: StoreView, dst: StoreView, indices: Seq<i32>) -> MoveOutcome
    decreases indices.len(),
{
    if indices.len() == 0 {
        MoveOutcome { source: src, dest: dst, tasks: Seq::empty(), ok: true }
    } else {
        let step = move_step(src, dst, indices[0]);
        if !step.ok {
            step
        } else {
            let rest = move_batch(step.source, step.dest, indices.skip(1));
            MoveOutcome {
                source: rest.source,
                dest: rest.dest,
                tasks: step.tasks + rest.tasks,
                ok: rest.ok,
            }
        }
    }
}

/// Relocates the active task holding `index`, where one does, from the
/// source store into the destination store: a fresh destination index
/// comes from the allocator run against the destination's active set,
/// and nothing else about the task changes — the uid is preserved.
fn move_single_task(src: &mut Store, dest: &mut Store, index: i32) -> (r: Result<
    Option<Task>,
    String,
>)
    requires
        old(src).wf(),
        old(dest).wf(),
        old(dest)@.active.len() + 1 < i32::MAX,
    ensures
        final(src).wf(),
        final(dest).wf(),
        ({
            let step = move_step(old(src)@, old(dest)@, index);
            match r {
                Ok(t) => {
                    &&& step.ok
                    &&& final(src)@ == step.source
                    &&& final(dest)@ == step.dest
                    &&& t.deep_view() == (if step.tasks.len() > 0 {
                        Some(step.tasks[0])
                    } else {
                        None
                    })
                    &&& final(dest)@.active.len() <= old(dest)@.active.len() + 1
                },
                Err(_) => {
                    &&& !step.ok
                    &&& final(src)@ == old(src)@
                    &&& final(dest)@ == old(dest)@
                },
            }
        }),
{
    match src.find_active(index) {
        None => {
            proof {
                assert(src@ == move_step(old(src)@, old(dest)@, index).source);
            }
            Ok(None)
        },
        Some(p) => {
            let ghost s0 = src@.active;
            let ghost p_int = p as int;
            proof {
                assert(s0[p_int] == src.active@[p_int]@);
                assert(has_active_index(s0, index));
                assert(active_pos(s0, index) == p_int) by {
                    let q = active_pos(s0, index);
                    assert(0 <= q < s0.len() && s0[q].task_index == index);
                    if q != p_int {
                        assert(s0[q].task_index != s0[p_int].task_index);
                    }
                }
            }
            if !dest.uid_is_free(&src.active[p].uid) {
                return Err("a live record of the destination already holds this uid".to_owned());
            }
            let ix = dest.next_available_index();
            proof {
                assert(is_first_free(dest@.active, ix));
                assert(first_free_index(dest@.active) == ix) by {
                    let w = first_free_index(dest@.active);
                    assert(is_first_free(dest@.active, w));
                    if w < ix {
                        assert(has_active_index(dest@.active, w));
                    }
                    if w > ix {
                        assert(has_active_index(dest@.active, ix));
                    }
                }
            }
            let mut rec = src.active.remove(p);
            rec.task_index = ix;
            proof {
                assert(rec@ == moved_record(s0[p_int], ix));
            }
            let t = Task::from_record(&rec);
            insert_sorted(dest, rec);
            proof {
                let sp = src@.active;
                old(src).active@.remove_ensures(p_int);
                s0.remove_ensures(p_int);
                assert(sp =~= s0.remove(p_int)) by {
                    assert forall|i: int| 0 <= i < sp.len() implies sp[i] == s0.remove(
                        p_int,
                    )[i] by {
                        assert(sp[i] == src.active@[i]@);
                        if i < p_int {
                            assert(src.active@[i] == old(src).active@[i]);
                        } else {
                            assert(src.active@[i] == old(src).active@[i + 1]);
                        }
                    }
                }
                assert forall|i: int, j: int| 0 <= i < j < sp.len() implies sp[i].task_index
                    < sp[j].task_index by {}
                assert forall|i: int| 0 <= i < sp.len() implies 1 <= #[trigger] sp[i].task_index
                    < i32::MAX by {}
                assert forall|i: int, j: int| 0 <= i < j < sp.len() implies sp[i].uid
                    != sp[j].uid by {}
                assert forall|i: int, j: int|
                    0 <= i < sp.len() && 0 <= j < src@.completed.len() implies sp[i].uid
                    != src@.completed[j].record.uid by {
                    if i < p_int {
                        assert(sp[i] == s0[i]);
                    } else {
                        assert(sp[i] == s0[i + 1]);
                    }
                }
                assert(src@.completed =~= old(src)@.completed);
                assert(src@.deleted =~= old(src)@.deleted);
                assert(src@.log =~= old(src)@.log);
            }
            Ok(Some(t))
        },
    }
}

/// Relocates every matched index from one environment's store into
/// another's: each moved task gets a fresh destination index from the
/// allocator, and keeps its identity. A destination uid collision is a
/// constraint violation: it stops the remaining steps, and the steps
/// already taken stay committed — the two stores are two independent
/// transactions, not one.
pub fn move_tasks(src: &mut Store, dest: &mut Store, indices: &Vec<i32>) -> (r: MutationResult)
    requires
        old(src).wf(),
        old(dest).wf(),
        old(dest)@.active.len() + indices@.len() + 1 < i32::MAX,
    ensures
        final(src).wf(),
        final(dest).wf(),
        final(src)@ == move_batch(old(src)@, old(dest)@, indices@).source,
        final(dest)@ == move_batch(old(src)@, old(dest)@, indices@).dest,
        move_batch(old(src)@, old(dest)@, indices@).ok ==> {
            &&& r@.success
            &&& r@.tasks == Some(move_batch(old(src)@, old(dest)@, indices@).tasks)
            &&& r@.error is None
        },
        !move_batch(old(src)@, old(dest)@, indices@).ok ==> {
            &&& !r@.success
            &&& r@.tasks is None
            &&& r@.error is Some
        },
        r@.task is None,
        r@.index is None,
{
    let ghost full = move_batch(old(src)@, old(dest)@, indices@);
    let mut out: Vec<Task> = Vec::new();
    proof {
        assert(indices@.skip(0) =~= indices@);
        assert(out.deep_view() =~= Seq::<TaskView>::empty());
        assert(out.deep_view() + move_batch(src@, dest@, indices@).tasks =~= move_batch(
            src@,
            dest@,
            indices@,
        ).tasks);
    }
    let n = indices.len();
    let mut k: usize = 0;
    while k < n
        invariant
            k <= n,
            n == indices@.len(),
            src.wf(),
            dest.wf(),
            dest@.active.len() <= old(dest)@.active.len() + k,
            old(dest)@.active.len() + indices@.len() + 1 < i32::MAX,
            full == move_batch(old(src)@, old(dest)@, indices@),
            move_batch(src@, dest@, indices@.skip(k as int)).source == full.source,
            move_batch(src@, dest@, indices@.skip(k as int)).dest == full.dest,
            move_batch(src@, dest@, indices@.skip(k as int)).ok == full.ok,
            full.ok ==> out.deep_view() + move_batch(src@, dest@, indices@.skip(k as int)).tasks
                == full.tasks,
        decreases n - k,
    {
        let ghost pre_src = src@;
        let ghost pre_dest = dest@;
        let ghost pre_out = out.deep_view();
        let ghost rest = indices@.skip(k as int);
        proof {
            assert(rest[0] == indices@[k as int]);
            assert(rest.skip(1) =~= indices@.skip(k as int + 1));
        }
        let res = move_single_task(src, dest, indices[k]);
        match res {
            Ok(opt) => {
                let ghost step = move_step(pre_src, pre_dest, indices@[k as int]);
                match opt {
                    Some(t) => {
                        let ghost tv = t@;
                        out.push(t);
                        proof {
                            assert(out.deep_view() =~= pre_out.push(tv));
                            assert(step.tasks =~= seq![tv]);
                            if full.ok {
                                assert(pre_out.push(tv) =~= pre_out + seq![tv]);
                                assert((pre_out + seq![tv]) + move_batch(
                                    src@,
                                    dest@,
                                    indices@.skip(k as int + 1),
                                ).tasks =~= pre_out + (seq![tv] + move_batch(
                                    src@,
                                    dest@,
                                    indices@.skip(k as int + 1),
                                ).tasks));
                            }
                        }
                    },
                    None => {
                        proof {
                            assert(step.tasks =~= Seq::<TaskView>::empty());
                            if full.ok {
                                assert(Seq::<TaskView>::empty() + move_batch(
                                    src@,
                                    dest@,
                                    indices@.skip(k as int + 1),
                                ).tasks =~= move_batch(
                                    src@,
                                    dest@,
                                    indices@.skip(k as int + 1),
                                ).tasks);
                            }
                        }
                    },
                }
            },
            Err(e) => {
                proof {
                    let step = move_step(pre_src, pre_dest, indices@[k as int]);
                    assert(!step.ok);
                    assert(move_batch(pre_src, pre_dest, rest) == step);
                }
                return MutationResult {
                    success: false,
                    task: None,
                    tasks: None,
                    error: Some(e),
                    index: None,
                };
            },
        }
        k = k + 1;
    }
    proof {
        assert(indices@.skip(n as int) =~= Seq::<i32>::empty());
        assert(out.deep_view() + Seq::<TaskView>::empty() =~= out.deep_view());
    }
    MutationResult { success: true, task: None, tasks: Some(out), error: None, index: None }
}

/// The log's retention bound: a cap below zero keeps nothing.
pub open spec fn log_cap(cap: i64) -> int {
    if cap < 0 {
        0
    } else {
        cap as int
    }
}

/// The log after one push: the entry appended at the end, then the
/// oldest entries discarded until at most `cap` of the most recent
/// remain.
pub open spec fn pushed_log(
    log: Seq<crate::store::LogEntryView>,
    e: crate::store::LogEntryView,
    cap: i64,
) -> Seq<crate::store::LogEntryView> {
    let appended = log.push(e);
    if appended.len() > log_cap(cap) {
        appended.skip(appended.len() - log_cap(cap))
    } else {
        appended
    }
}

/// Whether the log has grown past a positive cap.
fn log_over_cap(len: usize, cap: i64) -> (b: bool)
    requires
        cap >= 1,
    ensures
        b == (len as int > cap as int),
{
    (len as u64) > (cap as u64)
}

/// Pushes one entry onto the transaction log, then trims the log to at
/// most `max_entries` most-recent entries by discarding the oldest. The
/// push is all-or-nothing with respect to trimming: the log is never
/// left over capacity.
pub fn log_transaction(
    store: &mut Store,
    diff_json: &str,
    operation: &str,
    max_entries: i64,
    now: i64,
) -> (r: MutationResult)
    requires
        old(store).wf(),
    ensures
        final(store).wf(),
        final(store)@.log == pushed_log(
            old(store)@.log,
            crate::store::LogEntryView { operation: operation@, payload: diff_json@, created_at: now },
            max_entries,
        ),
        final(store)@.active == old(store)@.active,
        final(store)@.completed == old(store)@.completed,
        final(store)@.deleted == old(store)@.deleted,
        r@.success,
        r@.task is None,
        r@.tasks is None,
        r@.error is None,
        r@.index is None,
{
    let entry = crate::store::LogEntry {
        operation: operation.to_owned(),
        payload: diff_json.to_owned(),
        created_at: now,
    };
    let ghost ev = crate::store::LogEntryView {
        operation: operation@,
        payload: diff_json@,
        created_at: now,
    };
    let ghost l0 = store@.log;
    store.log.push(entry);
    let ghost appended = l0.push(ev);
    proof {
        assert(store@.log =~= appended) by {
            assert forall|i: int| 0 <= i < store@.log.len() implies store@.log[i]
                == appended[i] by {
                assert(store@.log[i] == store.log@[i]@);
                if i < l0.len() {
                    assert(store.log@[i] == old(store).log@[i]);
                }
            }
        }
    }
    if max_entries <= 0 {
        store.log.clear();
        proof {
            assert(store@.log =~= Seq::<crate::store::LogEntryView>::empty());
            assert(appended.skip(appended.len() - log_cap(max_entries)) =~= Seq::<
                crate::store::LogEntryView,
            >::empty());
            assert(store@.active =~= old(store)@.active);
            assert(store@.completed =~= old(store)@.completed);
            assert(store@.deleted =~= old(store)@.deleted);
        }
    } else {
        while log_over_cap(store.log.len(), max_entries)
            invariant
                max_entries >= 1,
                store@.log.len() <= appended.len(),
                store@.log == appended.skip(appended.len() - store@.log.len()),
                store@.log.len() >= log_cap(max_entries) || store@.log == appended,
                store@.active == old(store)@.active,
                store@.completed == old(store)@.completed,
                store@.deleted == old(store)@.deleted,
                store.wf(),
            decreases store@.log.len(),
        {
            let ghost lpre = store@.log;
            let ghost lpre_exec = store.log@;
            let ghost d = appended.len() - lpre.len();
            store.log.remove(0);
            proof {
                lpre_exec.remove_ensures(0);
                lpre.remove_ensures(0);
                assert(store@.log =~= lpre.remove(0)) by {
                    assert forall|i: int| 0 <= i < store@.log.len() implies store@.log[i]
                        == lpre.remove(0)[i] by {
                        assert(store@.log[i] == store.log@[i]@);
                        assert(store.log@[i] == lpre_exec[i + 1]);
                        assert(lpre_exec[i + 1]@ == lpre[i + 1]);
                    }
                }
                assert(store@.log =~= appended.skip(d + 1)) by {
                    assert forall|i: int| 0 <= i < store@.log.len() implies store@.log[i]
                        == appended.skip(d + 1)[i] by {
                        assert(lpre.remove(0)[i] == lpre[i + 1]);
                        assert(lpre[i + 1] == appended.skip(d)[i + 1]);
                        assert(appended.skip(d)[i + 1] == appended[d + i + 1]);
                        assert(appended.skip(d + 1)[i] == appended[d + 1 + i]);
                    }
                }
            }
        }
        proof {
            if appended.len() > log_cap(max_entries) {
                assert(store@.log.len() == log_cap(max_entries));
            }
            assert(store@.log == pushed_log(l0, ev, max_entries));
        }
    }
    MutationResult { success: true, task: None, tasks: None, error: None, index: None }
}

/// Pops the single most-recently-pushed log entry, or answers the
/// explicit empty signal where the log has none.
pub fn pop_transaction(store: &mut Store) -> (r: Option<crate::store::LogEntry>)
    requires
        old(store).wf(),
    ensures
        final(store).wf(),
        final(store)@.active == old(store)@.active,
        final(store)@.completed == old(store)@.completed,
        final(store)@.deleted == old(store)@.deleted,
        old(store)@.log.len() == 0 ==> r is None && final(store)@.log == old(store)@.log,
        old(store)@.log.len() > 0 ==> final(store)@.log == old(store)@.log.drop_last()
            && r.deep_view() == Some(old(store)@.log.last()),
{
    let r = store.log.pop();
    proof {
        let l0 = old(store)@.log;
        if l0.len() > 0 {
            assert(store@.log =~= l0.drop_last()) by {
                assert forall|i: int| 0 <= i < store@.log.len() implies store@.log[i]
                    == l0.drop_last()[i] by {
                    assert(store@.log[i] == store.log@[i]@);
                    assert(store.log@[i] == old(store).log@[i]);
                }
            }
            assert(old(store).log@[old(store).log@.len() - 1]@ == l0.last());
        }
        assert(store@.active =~= old(store)@.active);
        assert(store@.completed =~= old(store)@.completed);
        assert(store@.deleted =~= old(store)@.deleted);
    }
    r
}

/// The pending-action rule: an edit keeps a never-synced record marked
/// for creation, and marks every other record for update.
pub proof fn lemma_pending_rule(r: StoredTaskView, c: TaskChangesView, now: i64)
    ensures
        r.pending_action == Some(pending_create()) ==> modified_record(r, c, now).pending_action
            == Some(pending_create()),
        r.pending_action != Some(pending_create()) ==> modified_record(r, c, now).pending_action
            == Some(crate::task::pending_update()),
{
}

/// Create then modify without a sync between: the freshly created record
/// carries the never-synced marker, and an edit leaves that marker in
/// place — it never becomes an update marker.
pub proof fn lemma_create_then_modify_stays_create(
    input: TaskInputView,
    uid: Seq<char>,
    index: i32,
    created: i64,
    c: TaskChangesView,
    edited: i64,
)
    ensures
        record_for_input(input, uid, index, created).pending_action == Some(pending_create()),
        modified_record(record_for_input(input, uid, index, created), c, edited).pending_action
            == Some(pending_create()),
{
}

} // verus!
