use vstd::prelude::*;

use crate::codec::{decode_tags, parsed_tags, project_in_props, stored_project};
use crate::task::{pending_create, pending_update, Task, TaskView};

verus! {

/// A row of one of the record sets, in the shape the store keeps it: the
/// tag list and the property bag still serialized, the derived absolute
/// times beside the display strings, and the sync markers carried along.
pub struct StoredTask {
    pub uid: String,
    pub task_index: i32,
    pub summary: String,
    pub status: String,
    pub due: Option<String>,
    pub wait: Option<String>,
    pub due_utc: Option<i64>,
    pub wait_utc: Option<i64>,
    pub priority: Option<i32>,
    pub x_properties: Option<String>,
    pub categories: Option<String>,
    pub url: Option<String>,
    pub attachments: Option<String>,
    pub href: Option<String>,
    pub pending_action: Option<String>,
    pub last_synced: Option<i64>,
    pub updated_at: i64,
}

/// Mathematical content of a stored row.
pub ghost struct StoredTaskView {
    pub uid: Seq<char>,
    pub task_index: i32,
    pub summary: Seq<char>,
    pub status: Seq<char>,
    pub due: Option<Seq<char>>,
    pub wait: Option<Seq<char>>,
    pub due_utc: Option<i64>,
    pub wait_utc: Option<i64>,
    pub priority: Option<i32>,
    pub x_properties: Option<Seq<char>>,
    pub categories: Option<Seq<char>>,
    pub url: Option<Seq<char>>,
    pub attachments: Option<Seq<char>>,
    pub href: Option<Seq<char>>,
    pub pending_action: Option<Seq<char>>,
    pub last_synced: Option<i64>,
    pub updated_at: i64,
}

impl DeepView for StoredTask {
    type V = StoredTaskView;

    open spec fn deep_view(&self) -> StoredTaskView {
        self.view()
    }
}

impl View for StoredTask {
    type V = StoredTaskView;

    open spec fn view(&self) -> StoredTaskView {
        StoredTaskView {
            uid: self.uid@,
            task_index: self.task_index,
            summary: self.summary@,
            status: self.status@,
            due: self.due.deep_view(),
            wait: self.wait.deep_view(),
            due_utc: self.due_utc,
            wait_utc: self.wait_utc,
            priority: self.priority,
            x_properties: self.x_properties.deep_view(),
            categories: self.categories.deep_view(),
            url: self.url.deep_view(),
            attachments: self.attachments.deep_view(),
            href: self.href.deep_view(),
            pending_action: self.pending_action.deep_view(),
            last_synced: self.last_synced,
            updated_at: self.updated_at,
        }
    }
}

/// The list a serialized list column decodes to: an absent or unreadable
/// column counts as empty.
pub open spec fn decoded_tags(o: Option<Seq<char>>) -> Seq<Seq<char>> {
    match o {
        Some(s) => match parsed_tags(s) {
            Some(v) => v,
            None => Seq::empty(),
        },
        None => Seq::empty(),
    }
}

/// The caller-facing task a stored row reads as.
pub open spec fn task_of_record(r: StoredTaskView) -> TaskView {
    TaskView {
        uid: r.uid,
        index: r.task_index,
        summary: r.summary,
        status: r.status,
        due: r.due,
        wait: r.wait,
        priority: r.priority,
        tags: decoded_tags(r.categories),
        project: stored_project(r.x_properties),
        url: r.url,
        attachments: decoded_tags(r.attachments),
    }
}

/// The pending-action marker a record carries after an edit or a
/// completion: a record never yet synced stays marked for creation,
/// every other record is marked for update.
pub open spec fn recomputed_pending(p: Option<Seq<char>>) -> Option<Seq<char>> {
    if p == Some(pending_create()) {
        Some(pending_create())
    } else {
        Some(pending_update())
    }
}

/// An owned copy of an optional string.
pub fn clone_opt_string(o: &Option<String>) -> (r: Option<String>)
    ensures
        r == *o,
{
    match o {
        Some(s) => Some(s.clone()),
        None => None,
    }
}

/// Decodes a serialized list column; an absent or unreadable column
/// counts as empty.
pub fn decode_list_column(o: &Option<String>) -> (r: Vec<String>)
    ensures
        r.deep_view() == decoded_tags(o.deep_view()),
{
    let empty: Vec<String> = Vec::new();
    proof {
        assert(empty.deep_view() =~= Seq::<Seq<char>>::empty());
    }
    match o {
        Some(s) => match decode_tags(s.as_str()) {
            Some(v) => v,
            None => empty,
        },
        None => empty,
    }
}

/// Whether a record's pending-action marker says it was never synced.
pub fn pending_is_create(p: &Option<String>) -> (b: bool)
    ensures
        b == (p.deep_view() == Some(pending_create())),
{
    match p {
        Some(s) => {
            let needle: String = "create".to_owned();
            s.eq(&needle)
        },
        None => false,
    }
}

/// The marker written back by an edit or a completion; see
/// [`recomputed_pending`].
pub fn recompute_pending(p: &Option<String>) -> (r: Option<String>)
    ensures
        r.deep_view() == recomputed_pending(p.deep_view()),
{
    if pending_is_create(p) {
        Some("create".to_owned())
    } else {
        Some("update".to_owned())
    }
}

impl Task {
    /// Reads a stored row into the caller-facing shape: the tag list and
    /// the attachments decoded out of their serialized columns, the
    /// project read from under the reserved key of the property bag.
    pub fn from_record(r: &StoredTask) -> (t: Task)
        ensures
            t@ == task_of_record(r@),
    {
        let tags = decode_list_column(&r.categories);
        let attachments = decode_list_column(&r.attachments);
        let project = match &r.x_properties {
            Some(s) => project_in_props(s.as_str()),
            None => None,
        };
        Task {
            uid: r.uid.clone(),
            index: r.task_index,
            summary: r.summary.clone(),
            status: r.status.clone(),
            due: clone_opt_string(&r.due),
            wait: clone_opt_string(&r.wait),
            priority: r.priority,
            tags,
            project,
            url: clone_opt_string(&r.url),
            attachments,
        }
    }
}

} // verus!
