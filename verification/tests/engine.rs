use tdo_core::allocator::allocate_next_index;
use tdo_core::codec::parse_datetime_to_timestamp;
use tdo_core::mutations::{
    add_task, complete_tasks, create_task, delete_tasks, log_transaction, modify_tasks,
    move_tasks, pop_transaction, start_tasks, stop_tasks, TaskChanges, TaskInput,
};
use tdo_core::record::StoredTask;
use tdo_core::store::Store;
use tdo_core::task::Task;

fn empty_store() -> Store {
    Store { active: Vec::new(), completed: Vec::new(), deleted: Vec::new(), log: Vec::new() }
}

fn basic_input(summary: &str) -> TaskInput {
    TaskInput {
        summary: summary.to_string(),
        status: None,
        due: None,
        wait: None,
        priority: None,
        project: None,
        tags: None,
        url: None,
    }
}

fn no_changes() -> TaskChanges {
    TaskChanges {
        summary: None,
        status: None,
        due: None,
        wait: None,
        priority: None,
        project: None,
        add_tags: None,
        remove_tags: None,
        url: None,
    }
}

fn raw_record(uid: &str, index: i32, summary: &str, status: &str, pending: Option<&str>) -> StoredTask {
    StoredTask {
        uid: uid.to_string(),
        task_index: index,
        summary: summary.to_string(),
        status: status.to_string(),
        due: None,
        wait: None,
        due_utc: None,
        wait_utc: None,
        priority: None,
        x_properties: None,
        categories: None,
        url: None,
        attachments: None,
        href: None,
        pending_action: pending.map(|p| p.to_string()),
        last_synced: None,
        updated_at: 0,
    }
}

#[test]
fn allocator_fills_first_hole() {
    assert_eq!(allocate_next_index(&vec![1, 2, 4, 5]), 3);
}

#[test]
fn allocator_starts_at_one() {
    assert_eq!(allocate_next_index(&vec![]), 1);
}

#[test]
fn allocator_extends_contiguous_run() {
    assert_eq!(allocate_next_index(&vec![1, 2, 3]), 4);
}

#[test]
fn store_allocates_through_active_set() {
    let mut s = empty_store();
    s.active.push(raw_record("u1", 1, "a", "NEEDS-ACTION", Some("create")));
    s.active.push(raw_record("u2", 2, "b", "NEEDS-ACTION", Some("create")));
    s.active.push(raw_record("u4", 4, "c", "NEEDS-ACTION", Some("create")));
    assert!(s.check_wf());
    assert_eq!(s.next_available_index(), 3);
}

#[test]
fn add_task_assigns_index_and_defaults() {
    let mut s = empty_store();
    let r = add_task(&mut s, &basic_input("write report"), "uid-1".to_string(), 50);
    assert!(r.success);
    assert_eq!(r.index, Some(1));
    let t = r.task.expect("created task");
    assert_eq!(t.index, 1);
    assert_eq!(t.summary, "write report");
    assert_eq!(t.status, "NEEDS-ACTION");
    assert_eq!(s.active.len(), 1);
    assert_eq!(s.active[0].pending_action.as_deref(), Some("create"));
    assert_eq!(s.active[0].updated_at, 50);
}

#[test]
fn add_task_refuses_live_uid() {
    let mut s = empty_store();
    assert!(add_task(&mut s, &basic_input("one"), "dup".to_string(), 1).success);
    let r = add_task(&mut s, &basic_input("two"), "dup".to_string(), 2);
    assert!(!r.success);
    assert!(r.error.is_some());
    assert!(r.task.is_none());
    assert_eq!(s.active.len(), 1);
}

#[test]
fn create_task_draws_a_uid() {
    let mut s = empty_store();
    let r = create_task(&mut s, &basic_input("drawn"), 7);
    assert!(r.success);
    assert_eq!(s.active.len(), 1);
    assert_eq!(s.active[0].uid.len(), 36);
}

#[test]
fn created_then_modified_stays_pending_create() {
    let mut s = empty_store();
    let r = add_task(&mut s, &basic_input("fresh"), "u-1".to_string(), 10);
    let index = r.index.unwrap();
    let changes = TaskChanges { summary: Some("renamed".to_string()), ..no_changes() };
    let m = modify_tasks(&mut s, &vec![index], &changes, 20);
    assert!(m.success);
    assert_eq!(s.active[0].summary, "renamed");
    assert_eq!(s.active[0].pending_action.as_deref(), Some("create"));
}

#[test]
fn modified_synced_task_becomes_pending_update() {
    let mut s = empty_store();
    s.active.push(raw_record("u1", 1, "old", "NEEDS-ACTION", None));
    let m = modify_tasks(&mut s, &vec![1], &no_changes(), 20);
    assert!(m.success);
    assert_eq!(s.active[0].pending_action.as_deref(), Some("update"));
}

#[test]
fn adding_present_tag_does_not_duplicate() {
    let mut s = empty_store();
    let input = TaskInput { tags: Some(vec!["a".to_string()]), ..basic_input("tagged") };
    let r = add_task(&mut s, &input, "u-1".to_string(), 1);
    let index = r.index.unwrap();
    let changes = TaskChanges {
        add_tags: Some(vec!["a".to_string(), "b".to_string()]),
        ..no_changes()
    };
    let m = modify_tasks(&mut s, &vec![index], &changes, 2);
    let t = &m.tasks.unwrap()[0];
    assert_eq!(t.tags, vec!["a".to_string(), "b".to_string()]);
}

#[test]
fn tag_added_and_removed_in_one_change_ends_absent() {
    let mut s = empty_store();
    let r = add_task(&mut s, &basic_input("tagged"), "u-1".to_string(), 1);
    let index = r.index.unwrap();
    let changes = TaskChanges {
        add_tags: Some(vec!["c".to_string()]),
        remove_tags: Some(vec!["c".to_string()]),
        ..no_changes()
    };
    let m = modify_tasks(&mut s, &vec![index], &changes, 2);
    let t = &m.tasks.unwrap()[0];
    assert!(t.tags.is_empty());
}

#[test]
fn deleting_never_synced_task_leaves_no_tombstone() {
    let mut s = empty_store();
    add_task(&mut s, &basic_input("ephemeral"), "u-1".to_string(), 1);
    let d = delete_tasks(&mut s, &vec![1], 99);
    assert!(d.success);
    assert_eq!(d.tasks.unwrap().len(), 1);
    assert!(s.active.is_empty());
    assert!(s.deleted.is_empty());
}

#[test]
fn deleting_synced_task_leaves_one_tombstone() {
    let mut s = empty_store();
    s.active.push(raw_record("u1", 1, "kept", "IN-PROCESS", Some("update")));
    let d = delete_tasks(&mut s, &vec![1], 99);
    assert!(d.success);
    assert!(s.active.is_empty());
    assert_eq!(s.deleted.len(), 1);
    assert_eq!(s.deleted[0].deleted_at, 99);
    assert_eq!(s.deleted[0].record.status, "IN-PROCESS");
    assert_eq!(s.deleted[0].record.uid, "u1");
}

#[test]
fn completion_returns_pre_transition_snapshot() {
    let mut s = empty_store();
    s.active.push(raw_record("u1", 1, "busy", "IN-PROCESS", Some("update")));
    let c = complete_tasks(&mut s, &vec![1], 77);
    assert!(c.success);
    let snap = &c.tasks.unwrap()[0];
    assert_eq!(snap.status, "IN-PROCESS");
    assert!(s.active.is_empty());
    assert_eq!(s.completed.len(), 1);
    assert_eq!(s.completed[0].record.status, "COMPLETED");
    assert_eq!(s.completed[0].completed_at, 77);
    assert_eq!(s.completed[0].record.pending_action.as_deref(), Some("update"));
}

#[test]
fn completing_never_synced_task_keeps_create_marker() {
    let mut s = empty_store();
    add_task(&mut s, &basic_input("quick"), "u-1".to_string(), 1);
    let c = complete_tasks(&mut s, &vec![1], 2);
    assert!(c.success);
    assert_eq!(s.completed[0].record.pending_action.as_deref(), Some("create"));
}

#[test]
fn partial_match_reports_only_matched_subset() {
    let mut s = empty_store();
    s.active.push(raw_record("u3", 3, "present", "NEEDS-ACTION", Some("update")));
    let m = modify_tasks(&mut s, &vec![3, 99], &no_changes(), 5);
    assert!(m.success);
    assert!(m.error.is_none());
    let tasks = m.tasks.unwrap();
    assert_eq!(tasks.len(), 1);
    assert_eq!(tasks[0].index, 3);
}

#[test]
fn start_and_stop_switch_status() {
    let mut s = empty_store();
    add_task(&mut s, &basic_input("job"), "u-1".to_string(), 1);
    let r = start_tasks(&mut s, &vec![1], 2);
    assert_eq!(r.tasks.unwrap()[0].status, "IN-PROCESS");
    assert_eq!(s.active[0].status, "IN-PROCESS");
    let r = stop_tasks(&mut s, &vec![1], 3);
    assert_eq!(r.tasks.unwrap()[0].status, "NEEDS-ACTION");
    assert_eq!(s.active[0].status, "NEEDS-ACTION");
}

#[test]
fn log_push_keeps_only_most_recent_up_to_cap() {
    let mut s = empty_store();
    for i in 0..105 {
        let r = log_transaction(&mut s, &format!("diff-{}", i), "modify", 100, i);
        assert!(r.success);
    }
    assert_eq!(s.log.len(), 100);
    assert_eq!(s.log[0].payload, "diff-5");
    assert_eq!(s.log[99].payload, "diff-104");
    let top = pop_transaction(&mut s).expect("an entry");
    assert_eq!(top.payload, "diff-104");
    assert_eq!(s.log.len(), 99);
}

#[test]
fn log_pop_on_empty_gives_empty_signal() {
    let mut s = empty_store();
    assert!(pop_transaction(&mut s).is_none());
}

#[test]
fn log_cap_of_zero_keeps_nothing() {
    let mut s = empty_store();
    log_transaction(&mut s, "d", "op", 0, 1);
    assert!(s.log.is_empty());
}

#[test]
fn creation_normalizes_duplicate_tags() {
    let mut s = empty_store();
    let input = TaskInput {
        tags: Some(vec!["a".to_string(), "a".to_string(), "b".to_string()]),
        ..basic_input("dup tags")
    };
    let r = add_task(&mut s, &input, "u-1".to_string(), 1);
    assert_eq!(r.task.unwrap().tags, vec!["a".to_string(), "b".to_string()]);
}

#[test]
fn stored_representation_round_trips_tags_and_project() {
    let mut s = empty_store();
    let input = TaskInput {
        tags: Some(vec!["a".to_string(), "b".to_string()]),
        project: Some("X".to_string()),
        ..basic_input("round trip")
    };
    let r = add_task(&mut s, &input, "u-1".to_string(), 1);
    assert!(r.success);
    let reloaded = Task::from_record(&s.active[0]);
    assert_eq!(reloaded.tags, vec!["a".to_string(), "b".to_string()]);
    assert_eq!(reloaded.project.as_deref(), Some("X"));
}

#[test]
fn project_survives_unrelated_modify() {
    let mut s = empty_store();
    let input = TaskInput { project: Some("X".to_string()), ..basic_input("proj") };
    add_task(&mut s, &input, "u-1".to_string(), 1);
    let changes = TaskChanges { summary: Some("renamed".to_string()), ..no_changes() };
    let m = modify_tasks(&mut s, &vec![1], &changes, 2);
    assert_eq!(m.tasks.unwrap()[0].project.as_deref(), Some("X"));
}

#[test]
fn due_date_parses_in_preference_order() {
    assert_eq!(parse_datetime_to_timestamp("2024-01-15"), Some(1705276800));
    assert_eq!(parse_datetime_to_timestamp("2024-01-15T12:30:45"), Some(1705321845));
    assert_eq!(parse_datetime_to_timestamp("2024-01-15T12:30:45+01:00"), Some(1705318245));
    assert_eq!(parse_datetime_to_timestamp("soon"), None);
}

#[test]
fn unparseable_due_still_stores_display_string() {
    let mut s = empty_store();
    let input = TaskInput { due: Some("whenever".to_string()), ..basic_input("loose") };
    let r = add_task(&mut s, &input, "u-1".to_string(), 1);
    assert!(r.success);
    assert_eq!(s.active[0].due.as_deref(), Some("whenever"));
    assert_eq!(s.active[0].due_utc, None);
}

#[test]
fn modify_recomputes_derived_due() {
    let mut s = empty_store();
    add_task(&mut s, &basic_input("dated"), "u-1".to_string(), 1);
    let changes = TaskChanges { due: Some("2024-01-15".to_string()), ..no_changes() };
    modify_tasks(&mut s, &vec![1], &changes, 2);
    assert_eq!(s.active[0].due_utc, Some(1705276800));
}

#[test]
fn deleted_index_is_reused() {
    let mut s = empty_store();
    add_task(&mut s, &basic_input("one"), "u-1".to_string(), 1);
    add_task(&mut s, &basic_input("two"), "u-2".to_string(), 1);
    add_task(&mut s, &basic_input("three"), "u-3".to_string(), 1);
    delete_tasks(&mut s, &vec![2], 5);
    let r = add_task(&mut s, &basic_input("four"), "u-4".to_string(), 6);
    assert_eq!(r.index, Some(2));
}

#[test]
fn move_allocates_fresh_destination_index() {
    let mut src = empty_store();
    let mut dest = empty_store();
    src.active.push(raw_record("moved", 7, "wanderer", "NEEDS-ACTION", Some("update")));
    dest.active.push(raw_record("stay", 1, "resident", "NEEDS-ACTION", Some("update")));
    let r = move_tasks(&mut src, &mut dest, &vec![7]);
    assert!(r.success);
    let tasks = r.tasks.unwrap();
    assert_eq!(tasks.len(), 1);
    assert_eq!(tasks[0].index, 2);
    assert_eq!(tasks[0].uid, "moved");
    assert!(src.active.is_empty());
    assert_eq!(dest.active.len(), 2);
    assert_eq!(dest.active[1].uid, "moved");
    assert_eq!(dest.active[1].task_index, 2);
}

#[test]
fn move_stops_on_destination_uid_collision() {
    let mut src = empty_store();
    let mut dest = empty_store();
    src.active.push(raw_record("dup", 1, "first", "NEEDS-ACTION", Some("update")));
    dest.active.push(raw_record("dup", 1, "other", "NEEDS-ACTION", Some("update")));
    let r = move_tasks(&mut src, &mut dest, &vec![1]);
    assert!(!r.success);
    assert!(r.error.is_some());
    assert_eq!(src.active.len(), 1);
    assert_eq!(dest.active.len(), 1);
}

#[test]
fn list_tasks_and_selection_by_index() {
    let mut s = empty_store();
    s.active.push(raw_record("u1", 1, "one", "NEEDS-ACTION", Some("update")));
    s.active.push(raw_record("u2", 2, "two", "NEEDS-ACTION", Some("update")));
    s.active.push(raw_record("u3", 4, "four", "NEEDS-ACTION", Some("update")));
    let all = s.list_tasks();
    assert_eq!(all.len(), 3);
    assert_eq!(all[2].summary, "four");
    let some = s.get_tasks_by_indices(&vec![4, 1, 99]);
    assert_eq!(some.len(), 2);
    assert_eq!(some[0].index, 1);
    assert_eq!(some[1].index, 4);
}

#[test]
fn distinct_tags_and_projects_over_active_set() {
    let mut s = empty_store();
    let mut a = raw_record("u1", 1, "one", "NEEDS-ACTION", Some("update"));
    a.categories = Some("[\"a\",\"b\"]".to_string());
    a.x_properties = Some("{\"X-PROJECT\":\"X\"}".to_string());
    let mut b = raw_record("u2", 2, "two", "NEEDS-ACTION", Some("update"));
    b.categories = Some("[\"b\",\"c\"]".to_string());
    b.x_properties = Some("{\"X-PROJECT\":\"X\"}".to_string());
    s.active.push(a);
    s.active.push(b);
    let mut tags = s.get_tags();
    tags.sort();
    assert_eq!(tags, vec!["a".to_string(), "b".to_string(), "c".to_string()]);
    let projects = s.get_projects();
    assert_eq!(projects, vec!["X".to_string()]);
}

#[test]
fn completed_status_rows_are_left_out_of_listing_and_queries() {
    let mut s = empty_store();
    let mut open = raw_record("u1", 1, "open", "NEEDS-ACTION", Some("update"));
    open.categories = Some("[\"a\"]".to_string());
    open.x_properties = Some("{\"X-PROJECT\":\"X\"}".to_string());
    let mut closed = raw_record("u2", 2, "closed", "COMPLETED", Some("update"));
    closed.categories = Some("[\"z\"]".to_string());
    closed.x_properties = Some("{\"X-PROJECT\":\"Zed\"}".to_string());
    s.active.push(open);
    s.active.push(closed);
    let listed = s.list_tasks();
    assert_eq!(listed.len(), 1);
    assert_eq!(listed[0].summary, "open");
    assert_eq!(s.get_tags(), vec!["a".to_string()]);
    assert_eq!(s.get_projects(), vec!["X".to_string()]);
}

#[test]
fn task_completions_skip_completed_rows() {
    let mut s = empty_store();
    s.active.push(raw_record("u1", 1, "open", "NEEDS-ACTION", Some("update")));
    s.active.push(raw_record("u2", 2, "closed", "COMPLETED", Some("update")));
    let rows = s.get_task_completions();
    assert_eq!(rows.len(), 1);
    assert_eq!(rows[0].0, 1);
    assert_eq!(rows[0].1, "open");
}

#[test]
fn check_wf_rejects_out_of_order_indices() {
    let mut s = empty_store();
    s.active.push(raw_record("u1", 2, "two", "NEEDS-ACTION", Some("update")));
    s.active.push(raw_record("u2", 1, "one", "NEEDS-ACTION", Some("update")));
    assert!(!s.check_wf());
}

#[test]
fn check_wf_rejects_duplicate_uids() {
    let mut s = empty_store();
    s.active.push(raw_record("same", 1, "one", "NEEDS-ACTION", Some("update")));
    s.active.push(raw_record("same", 2, "two", "NEEDS-ACTION", Some("update")));
    assert!(!s.check_wf());
}

#[test]
fn unreadable_stored_columns_read_as_empty() {
    let rec = {
        let mut r = raw_record("u1", 1, "messy", "NEEDS-ACTION", None);
        r.categories = Some("not json".to_string());
        r.x_properties = Some("also not json".to_string());
        r
    };
    let t = Task::from_record(&rec);
    assert!(t.tags.is_empty());
    assert!(t.project.is_none());
}
