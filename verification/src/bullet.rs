//! The bullet model: typed line items, optionally carrying a task state.
//!
//! Two families live here. `Bullet` is the general form used by the codec and
//! the storage layer: free-text content tagged with a `BulletType` and, for
//! tasks and priorities, a `TaskState`. `Task`, `Event` and `Note` are the
//! narrower typed forms used by display code, each wrapping a
//! `BulletContent`.

use vstd::prelude::*;

verus! {

/// The closed set of bullet kinds. `canonical_order` fixes the order in
/// which the text codec lays out sections.
#[derive(Clone, Copy, PartialEq, Eq, Structural, Debug)]
pub enum BulletType {
    Task,
    Event,
    Note,
    Priority,
    Inspiration,
    Insight,
    Misstep,
}

/// Lifecycle state of a task or priority bullet.
#[derive(Clone, Copy, PartialEq, Eq, Structural, Debug)]
pub enum TaskState {
    Pending,
    Completed,
    Migrated,
    Scheduled,
}

/// The fixed order in which bullet types appear in serialized entries.
pub open spec fn canonical_order() -> Seq<BulletType> {
    seq![
        BulletType::Task,
        BulletType::Event,
        BulletType::Note,
        BulletType::Priority,
        BulletType::Inspiration,
        BulletType::Insight,
        BulletType::Misstep,
    ]
}

/// The task state a freshly constructed bullet of a given type carries:
/// `Pending` for tasks and priorities, absent for every other type.
pub open spec fn default_task_state(t: BulletType) -> Option<TaskState> {
    match t {
        BulletType::Task => Some(TaskState::Pending),
        BulletType::Priority => Some(TaskState::Pending),
        _ => None,
    }
}

/// Whether a bullet type can carry a task state at all.
pub open spec fn carries_task_state(t: BulletType) -> bool {
    t == BulletType::Task || t == BulletType::Priority
}

/// Mathematical model of a `Bullet`: its content as a character sequence,
/// its type, and its optional task state.
#[verifier::ext_equal]
pub ghost struct BulletModel {
    pub content: Seq<char>,
    pub bullet_type: BulletType,
    pub task_state: Option<TaskState>,
}

/// One line item of an entry.
#[derive(Debug)]
pub struct Bullet {
    pub content: String,
    pub bullet_type: BulletType,
    pub task_state: Option<TaskState>,
}

impl View for Bullet {
    type V = BulletModel;

    open spec fn view(&self) -> BulletModel {
        BulletModel {
            content: self.content@,
            bullet_type: self.bullet_type,
            task_state: self.task_state,
        }
    }
}

impl Bullet {
    /// A new bullet of the given type; tasks and priorities start `Pending`,
    /// all other types carry no task state.
    pub fn new(content: &str, bullet_type: BulletType) -> (r: Bullet)
        ensures
            r@ == (BulletModel {
                content: content@,
                bullet_type,
                task_state: default_task_state(bullet_type),
            }),
    {
        let task_state = match bullet_type {
            BulletType::Task => Some(TaskState::Pending),
            BulletType::Priority => Some(TaskState::Pending),
            _ => None,
        };
        Bullet { content: content.to_owned(), bullet_type, task_state }
    }

    /// A task or priority bullet with an explicit task state; no other type
    /// carries one.
    pub fn with_task_state(content: &str, bullet_type: BulletType, state: TaskState) -> (r: Bullet)
        requires
            carries_task_state(bullet_type),
        ensures
            r@ == (BulletModel { content: content@, bullet_type, task_state: Some(state) }),
    {
        Bullet { content: content.to_owned(), bullet_type, task_state: Some(state) }
    }

    /// Marks a task or priority bullet completed; leaves other types alone.
    pub fn complete(self) -> (r: Bullet)
        ensures
            r@.content == self@.content,
            r@.bullet_type == self@.bullet_type,
            r@.task_state == if carries_task_state(self.bullet_type) {
                Some(TaskState::Completed)
            } else {
                self@.task_state
            },
    {
        let mut b = self;
        if matches!(b.bullet_type, BulletType::Task | BulletType::Priority) {
            b.task_state = Some(TaskState::Completed);
        }
        b
    }

    /// Marks a task or priority bullet migrated; leaves other types alone.
    pub fn migrate(self) -> (r: Bullet)
        ensures
            r@.content == self@.content,
            r@.bullet_type == self@.bullet_type,
            r@.task_state == if carries_task_state(self.bullet_type) {
                Some(TaskState::Migrated)
            } else {
                self@.task_state
            },
    {
        let mut b = self;
        if matches!(b.bullet_type, BulletType::Task | BulletType::Priority) {
            b.task_state = Some(TaskState::Migrated);
        }
        b
    }

    /// Marks a task or priority bullet scheduled; leaves other types alone.
    pub fn schedule(self) -> (r: Bullet)
        ensures
            r@.content == self@.content,
            r@.bullet_type == self@.bullet_type,
            r@.task_state == if carries_task_state(self.bullet_type) {
                Some(TaskState::Scheduled)
            } else {
                self@.task_state
            },
    {
        let mut b = self;
        if matches!(b.bullet_type, BulletType::Task | BulletType::Priority) {
            b.task_state = Some(TaskState::Scheduled);
        }
        b
    }
}

impl Clone for Bullet {
    /// Cloning preserves the bullet's model exactly.
    fn clone(&self) -> (r: Bullet)
        ensures
            r@ == self@,
    {
        Bullet {
            content: self.content.clone(),
            bullet_type: self.bullet_type,
            task_state: self.task_state,
        }
    }
}

/// Free-text content of one typed line item.
#[derive(Debug, Clone)]
pub struct BulletContent(pub String);

impl View for BulletContent {
    type V = Seq<char>;

    open spec fn view(&self) -> Seq<char> {
        self.0@
    }
}

impl BulletContent {
    pub fn new(content: &str) -> (r: BulletContent)
        ensures
            r@ == content@,
    {
        BulletContent(content.to_owned())
    }

    pub fn as_str(&self) -> (r: &str)
        ensures
            r@ == self@,
    {
        self.0.as_str()
    }
}

/// A task line item with an explicit lifecycle state.
#[derive(Debug, Clone)]
pub struct Task {
    pub content: BulletContent,
    pub state: TaskState,
}

impl Task {
    /// A new task, starting `Pending`.
    pub fn new(content: &str) -> (r: Task)
        ensures
            r.content@ == content@,
            r.state == TaskState::Pending,
    {
        Task { content: BulletContent::new(content), state: TaskState::Pending }
    }

    pub fn with_state(content: &str, state: TaskState) -> (r: Task)
        ensures
            r.content@ == content@,
            r.state == state,
    {
        Task { content: BulletContent::new(content), state }
    }

    pub fn complete(self) -> (r: Task)
        ensures
            r.content@ == self.content@,
            r.state == TaskState::Completed,
    {
        Task { content: self.content, state: TaskState::Completed }
    }

    pub fn migrate(self) -> (r: Task)
        ensures
            r.content@ == self.content@,
            r.state == TaskState::Migrated,
    {
        Task { content: self.content, state: TaskState::Migrated }
    }

    pub fn schedule(self) -> (r: Task)
        ensures
            r.content@ == self.content@,
            r.state == TaskState::Scheduled,
    {
        Task { content: self.content, state: TaskState::Scheduled }
    }
}

/// An event line item.
#[derive(Debug, Clone)]
pub struct Event {
    pub content: BulletContent,
}

impl Event {
    pub fn new(content: &str) -> (r: Event)
        ensures
            r.content@ == content@,
    {
        Event { content: BulletContent::new(content) }
    }
}

/// A note line item.
#[derive(Debug, Clone)]
pub struct Note {
    pub content: BulletContent,
}

impl Note {
    pub fn new(content: &str) -> (r: Note)
        ensures
            r.content@ == content@,
    {
        Note { content: BulletContent::new(content) }
    }
}

} // verus!
