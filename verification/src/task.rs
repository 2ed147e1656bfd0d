use vstd::prelude::*;

verus! {

/// Status a task is created with unless the caller chooses another.
pub open spec fn status_needs_action() -> Seq<char> {
    "NEEDS-ACTION"@
}

/// Status of a task someone has started working on.
pub open spec fn status_in_process() -> Seq<char> {
    "IN-PROCESS"@
}

/// Status forced onto every record stored in the completed set.
pub open spec fn status_completed() -> Seq<char> {
    "COMPLETED"@
}

/// Marker of a record that has never been persisted upstream.
pub open spec fn pending_create() -> Seq<char> {
    "create"@
}

/// Marker of a record whose upstream copy is stale.
pub open spec fn pending_update() -> Seq<char> {
    "update"@
}

/// Mathematical content of a task as handed back to callers.
pub ghost struct TaskView {
    pub uid: Seq<char>,
    pub index: i32,
    pub summary: Seq<char>,
    pub status: Seq<char>,
    pub due: Option<Seq<char>>,
    pub wait: Option<Seq<char>>,
    pub priority: Option<i32>,
    pub tags: Seq<Seq<char>>,
    pub project: Option<Seq<char>>,
    pub url: Option<Seq<char>>,
    pub attachments: Seq<Seq<char>>,
}

/// A uniquely identified unit of work, in the shape callers see it:
/// tags and the project already decoded out of the stored record.
pub struct Task {
    pub uid: String,
    pub index: i32,
    pub summary: String,
    pub status: String,
    pub due: Option<String>,
    pub wait: Option<String>,
    pub priority: Option<i32>,
    pub tags: Vec<String>,
    pub project: Option<String>,
    pub url: Option<String>,
    pub attachments: Vec<String>,
}

impl DeepView for Task {
    type V = TaskView;

    open spec fn deep_view(&self) -> TaskView {
        self.view()
    }
}

impl View for Task {
    type V = TaskView;

    open spec fn view(&self) -> TaskView {
        TaskView {
            uid: self.uid@,
            index: self.index,
            summary: self.summary@,
            status: self.status@,
            due: self.due.deep_view(),
            wait: self.wait.deep_view(),
            priority: self.priority,
            tags: self.tags.deep_view(),
            project: self.project.deep_view(),
            url: self.url.deep_view(),
            attachments: self.attachments.deep_view(),
        }
    }
}

} // verus!
