//! Entities and their identifiers.

use vstd::prelude::*;

use crate::repository::{Repository, RepositoryView};

verus! {

/// Identifier of a tag.
#[derive(Clone, Copy, Debug, PartialEq, Eq, Hash, Structural)]
pub struct TagId(pub u32);

/// Identifier of a project.
#[derive(Clone, Copy, Debug, PartialEq, Eq, Hash, Structural)]
pub struct ProjectId(pub u32);

/// Identifier of a task.
#[derive(Clone, Copy, Debug, PartialEq, Eq, Hash, Structural)]
pub struct TaskId(pub u32);

/// An identifier that can be compared with another of its kind.
pub trait Identifier: Copy {
    /// Whether two identifiers are the same one.
    fn same(&self, other: &Self) -> (r: bool)
        ensures
            r == (*self == *other),
    ;
}

impl Identifier for TagId {
    fn same(&self, other: &Self) -> (r: bool) {
        *self == *other
    }
}

impl Identifier for ProjectId {
    fn same(&self, other: &Self) -> (r: bool) {
        *self == *other
    }
}

impl Identifier for TaskId {
    fn same(&self, other: &Self) -> (r: bool) {
        *self == *other
    }
}

/// A label that projects and tasks can carry.
#[derive(Debug)]
pub struct Tag {
    pub id: TagId,
    pub name: String,
}

/// A project: a named list of tasks, with the tags its tasks get by default.
#[derive(Debug)]
pub struct Project {
    pub id: ProjectId,
    pub name: String,
    pub default_tags: Vec<TagId>,
    pub tasks: Vec<TaskId>,
}

/// A task of one project.
#[derive(Debug)]
pub struct Task {
    pub id: TaskId,
    pub project_id: ProjectId,
    pub name: String,
    pub tags: Vec<TagId>,
}

/// What a tag is, as a mathematical value.
pub struct TagView {
    pub id: TagId,
    pub name: Seq<char>,
}

/// What a project is, as a mathematical value.
pub struct ProjectView {
    pub id: ProjectId,
    pub name: Seq<char>,
    pub default_tags: Seq<TagId>,
    pub tasks: Seq<TaskId>,
}

/// What a task is, as a mathematical value.
pub struct TaskView {
    pub id: TaskId,
    pub project_id: ProjectId,
    pub name: Seq<char>,
    pub tags: Seq<TagId>,
}

impl View for Tag {
    type V = TagView;

    open spec fn view(&self) -> TagView {
        TagView { id: self.id, name: self.name@ }
    }
}

impl View for Project {
    type V = ProjectView;

    open spec fn view(&self) -> ProjectView {
        ProjectView {
            id: self.id,
            name: self.name@,
            default_tags: self.default_tags@,
            tasks: self.tasks@,
        }
    }
}

impl View for Task {
    type V = TaskView;

    open spec fn view(&self) -> TaskView {
        TaskView { id: self.id, project_id: self.project_id, name: self.name@, tags: self.tags@ }
    }
}

impl Clone for Tag {
    fn clone(&self) -> (copy: Self)
        ensures
            copy@ == self@,
    {
        Tag { id: self.id, name: self.name.clone() }
    }
}

impl Clone for Project {
    fn clone(&self) -> (copy: Self)
        ensures
            copy@ == self@,
    {
        Project {
            id: self.id,
            name: self.name.clone(),
            default_tags: self.default_tags.clone(),
            tasks: self.tasks.clone(),
        }
    }
}

impl Clone for Task {
    fn clone(&self) -> (copy: Self)
        ensures
            copy@ == self@,
    {
        Task {
            id: self.id,
            project_id: self.project_id,
            name: self.name.clone(),
            tags: self.tags.clone(),
        }
    }
}

impl From<i64> for TagId {
    fn from(value: i64) -> (id: TagId) {
        TagId(#[verifier::truncate] (value as u32))
    }
}

impl vstd::std_specs::convert::FromSpecImpl<i64> for TagId {
    open spec fn obeys_from_spec() -> bool {
        true
    }

    open spec fn from_spec(value: i64) -> TagId {
        TagId(value as u32)
    }
}

impl From<i64> for ProjectId {
    fn from(value: i64) -> (id: ProjectId) {
        ProjectId(#[verifier::truncate] (value as u32))
    }
}

impl vstd::std_specs::convert::FromSpecImpl<i64> for ProjectId {
    open spec fn obeys_from_spec() -> bool {
        true
    }

    open spec fn from_spec(value: i64) -> ProjectId {
        ProjectId(value as u32)
    }
}

impl From<i64> for TaskId {
    fn from(value: i64) -> (id: TaskId) {
        TaskId(#[verifier::truncate] (value as u32))
    }
}

impl vstd::std_specs::convert::FromSpecImpl<i64> for TaskId {
    open spec fn obeys_from_spec() -> bool {
        true
    }

    open spec fn from_spec(value: i64) -> TaskId {
        TaskId(value as u32)
    }
}

impl From<&Tag> for TagId {
    fn from(tag: &Tag) -> (id: TagId) {
        tag.id
    }
}

impl vstd::std_specs::convert::FromSpecImpl<&Tag> for TagId {
    open spec fn obeys_from_spec() -> bool {
        true
    }

    open spec fn from_spec(tag: &Tag) -> TagId {
        tag.id
    }
}

impl From<&Project> for ProjectId {
    fn from(project: &Project) -> (id: ProjectId) {
        project.id
    }
}

impl vstd::std_specs::convert::FromSpecImpl<&Project> for ProjectId {
    open spec fn obeys_from_spec() -> bool {
        true
    }

    open spec fn from_spec(project: &Project) -> ProjectId {
        project.id
    }
}

impl From<&Task> for TaskId {
    fn from(task: &Task) -> (id: TaskId) {
        task.id
    }
}

impl vstd::std_specs::convert::FromSpecImpl<&Task> for TaskId {
    open spec fn obeys_from_spec() -> bool {
        true
    }

    open spec fn from_spec(task: &Task) -> TaskId {
        task.id
    }
}

/// An entity that the store can hand out by its identifier.
pub trait FromId<Id>: Sized + View {
    /// Whether `store` holds an entity under `id`.
    spec fn is_stored(id: Id, store: RepositoryView) -> bool;

    /// The entity that `store` holds under `id`.
    spec fn stored(id: Id, store: RepositoryView) -> Self::V;

    /// Whether `repository` holds an entity under `id`.
    fn holds(id: &Id, repository: &Repository) -> (held: bool)
        ensures
            held == Self::is_stored(*id, repository@),
    ;

    /// The entity that `repository` holds under `id`.
    fn from_id<'a>(id: &'a Id, repository: &'a Repository) -> (entity: &'a Self)
        requires
            Self::is_stored(*id, repository@),
        ensures
            entity@ == Self::stored(*id, repository@),
    ;
}

impl FromId<TagId> for Tag {
    open spec fn is_stored(id: TagId, store: RepositoryView) -> bool {
        store.tags.contains_key(id)
    }

    open spec fn stored(id: TagId, store: RepositoryView) -> TagView {
        store.tags[id]
    }

    fn holds(id: &TagId, repository: &Repository) -> (held: bool) {
        repository.tag(id).is_some()
    }

    fn from_id<'a>(id: &'a TagId, repository: &'a Repository) -> (entity: &'a Tag) {
        repository.tag(id).unwrap()
    }
}

impl FromId<ProjectId> for Project {
    open spec fn is_stored(id: ProjectId, store: RepositoryView) -> bool {
        store.projects.contains_key(id)
    }

    open spec fn stored(id: ProjectId, store: RepositoryView) -> ProjectView {
        store.projects[id]
    }

    fn holds(id: &ProjectId, repository: &Repository) -> (held: bool) {
        repository.project(id).is_some()
    }

    fn from_id<'a>(id: &'a ProjectId, repository: &'a Repository) -> (entity: &'a Project) {
        repository.project(id).unwrap()
    }
}

impl FromId<TaskId> for Task {
    open spec fn is_stored(id: TaskId, store: RepositoryView) -> bool {
        store.tasks.contains_key(id)
    }

    open spec fn stored(id: TaskId, store: RepositoryView) -> TaskView {
        store.tasks[id]
    }

    fn holds(id: &TaskId, repository: &Repository) -> (held: bool) {
        repository.task(id).is_some()
    }

    fn from_id<'a>(id: &'a TaskId, repository: &'a Repository) -> (entity: &'a Task) {
        repository.task(id).unwrap()
    }
}

} // verus!
