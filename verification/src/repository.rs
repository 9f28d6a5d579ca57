//! The entity store: tags, projects and tasks by identifier, with each
//! project's task list kept in step with the tasks that belong to it.

use std::collections::HashMap;
use vstd::prelude::*;

use vstd::std_specs::iter::IteratorSpec;

use crate::explorer::{lists_by_name, offers, Entry};
use crate::model::{Project, ProjectId, ProjectView, Tag, TagId, TagView, Task, TaskId, TaskView};
use crate::order::{name_starts_with, same_name, starts_with};

verus! {

broadcast use vstd::std_specs::hash::group_hash_axioms;

/// All entities, each kind keyed by the number of its identifier.
#[derive(Debug)]
pub struct Repository {
    pub(crate) tags: HashMap<u32, Tag>,
    pub(crate) projects: HashMap<u32, Project>,
    pub(crate) tasks: HashMap<u32, Task>,
}

/// What the store holds, as a mathematical value.
pub struct RepositoryView {
    pub tags: Map<TagId, TagView>,
    pub projects: Map<ProjectId, ProjectView>,
    pub tasks: Map<TaskId, TaskView>,
}

impl View for Repository {
    type V = RepositoryView;

    open(crate) spec fn view(&self) -> RepositoryView {
        RepositoryView {
            tags: Map::new(|id: TagId| self.tags@.contains_key(id.0), |id: TagId| self.tags@[id.0]@),
            projects: Map::new(
                |id: ProjectId| self.projects@.contains_key(id.0),
                |id: ProjectId| self.projects@[id.0]@,
            ),
            tasks: Map::new(
                |id: TaskId| self.tasks@.contains_key(id.0),
                |id: TaskId| self.tasks@[id.0]@,
            ),
        }
    }
}

/// The first position of `id` in `list`, or the length of `list` when it
/// does not occur.
pub open spec fn first_position(list: Seq<TaskId>, id: TaskId) -> int
    decreases list.len(),
{
    if list.len() == 0 {
        0
    } else if list[0] == id {
        0
    } else {
        1 + first_position(list.drop_first(), id)
    }
}

/// `first_position` finds `id` where it occurs first.
pub proof fn lemma_first_position(list: Seq<TaskId>, id: TaskId)
    ensures
        0 <= first_position(list, id) <= list.len(),
        forall|k: int| 0 <= k < first_position(list, id) ==> list[k] != id,
        list.contains(id) <==> first_position(list, id) < list.len(),
        first_position(list, id) < list.len() ==> list[first_position(list, id)] == id,
    decreases list.len(),
{
    if list.len() > 0 && list[0] != id {
        let rest = list.drop_first();
        lemma_first_position(rest, id);
        assert forall|k: int| 0 <= k < first_position(list, id) implies list[k] != id by {
            if k > 0 {
                assert(list[k] == rest[k - 1]);
            }
        }
        if list.contains(id) {
            let k = choose|k: int| 0 <= k < list.len() && list[k] == id;
            assert(rest[k - 1] == id);
        }
        if first_position(rest, id) < rest.len() {
            assert(list[first_position(rest, id) + 1] == id);
        }
    }
}

impl RepositoryView {
    /// Every entity is stored under its own identifier.
    pub open spec fn wf(self) -> bool {
        &&& forall|id: TagId| self.tags.contains_key(id) ==> (#[trigger] self.tags[id]).id == id
        &&& forall|id: ProjectId|
            self.projects.contains_key(id) ==> (#[trigger] self.projects[id]).id == id
        &&& forall|id: TaskId| self.tasks.contains_key(id) ==> (#[trigger] self.tasks[id]).id == id
    }

    /// The task `task` is stored and belongs to the project `project`.
    pub open spec fn owns(self, project: ProjectId, task: TaskId) -> bool {
        self.tasks.contains_key(task) && self.tasks[task].project_id == project
    }

    /// Every project lists exactly the stored tasks that belong to it, each
    /// once.
    pub open spec fn consistent(self) -> bool {
        &&& self.wf()
        &&& forall|p: ProjectId|
            self.projects.contains_key(p) ==> (#[trigger] self.projects[p]).tasks.no_duplicates()
        &&& forall|p: ProjectId, t: TaskId|
            self.projects.contains_key(p) ==> (self.projects[p].tasks.contains(t) <==> #[trigger] self.owns(p, t))
    }

    /// The store with `tag` put under its identifier.
    pub open spec fn add_tag(self, tag: TagView) -> RepositoryView {
        RepositoryView { tags: self.tags.insert(tag.id, tag), ..self }
    }

    /// The store without the tag `id`.
    pub open spec fn remove_tag(self, id: TagId) -> RepositoryView {
        RepositoryView { tags: self.tags.remove(id), ..self }
    }

    /// The store with `project` put under its identifier.
    pub open spec fn add_project(self, project: ProjectView) -> RepositoryView {
        RepositoryView { projects: self.projects.insert(project.id, project), ..self }
    }

    /// The store without the project `id`; its tasks stay.
    pub open spec fn remove_project(self, id: ProjectId) -> RepositoryView {
        RepositoryView { projects: self.projects.remove(id), ..self }
    }

    /// The store with `task` put under its identifier and appended to the
    /// list of its project, where that project is stored.
    pub open spec fn add_task(self, task: TaskView) -> RepositoryView {
        let projects = if self.projects.contains_key(task.project_id) {
            let project = self.projects[task.project_id];
            self.projects.insert(
                task.project_id,
                ProjectView { tasks: project.tasks.push(task.id), ..project },
            )
        } else {
            self.projects
        };
        RepositoryView { projects, tasks: self.tasks.insert(task.id, task), ..self }
    }

    /// The store without the task `id`, and without its first mention in the
    /// list of its project, where that project is stored.
    pub open spec fn remove_task(self, id: TaskId) -> RepositoryView {
        if self.tasks.contains_key(id) {
            let task = self.tasks[id];
            let projects = if self.projects.contains_key(task.project_id) {
                let project = self.projects[task.project_id];
                self.projects.insert(
                    task.project_id,
                    ProjectView {
                        tasks: project.tasks.remove(first_position(project.tasks, id)),
                        ..project
                    },
                )
            } else {
                self.projects
            };
            RepositoryView { projects, tasks: self.tasks.remove(id), ..self }
        } else {
            self
        }
    }

    /// The task `id`, if it is stored under a stored project, is in that
    /// project's list.
    pub open spec fn lists_task(self, id: TaskId) -> bool {
        self.tasks.contains_key(id) && self.projects.contains_key(self.tasks[id].project_id)
            ==> self.projects[self.tasks[id].project_id].tasks.contains(id)
    }
}

/// The tags of `tags` as mathematical values.
pub open spec fn tag_views(tags: Seq<Tag>) -> Seq<TagView> {
    Seq::new(tags.len(), |i: int| tags[i]@)
}

/// The projects of `projects` as mathematical values.
pub open spec fn project_views(projects: Seq<Project>) -> Seq<ProjectView> {
    Seq::new(projects.len(), |i: int| projects[i]@)
}

/// The tasks of `tasks` as mathematical values.
pub open spec fn task_views(tasks: Seq<Task>) -> Seq<TaskView> {
    Seq::new(tasks.len(), |i: int| tasks[i]@)
}

impl RepositoryView {
    /// The store that holds nothing.
    pub open spec fn empty() -> RepositoryView {
        RepositoryView { tags: Map::empty(), projects: Map::empty(), tasks: Map::empty() }
    }

    /// The store with `task` put under its identifier, every project's list
    /// left as it is.
    pub open spec fn put_task(self, task: TaskView) -> RepositoryView {
        RepositoryView { tasks: self.tasks.insert(task.id, task), ..self }
    }

    /// The store with each of `tags` put under its identifier, in order.
    pub open spec fn with_tags(self, tags: Seq<TagView>) -> RepositoryView
        decreases tags.len(),
    {
        if tags.len() == 0 {
            self
        } else {
            self.with_tags(tags.drop_last()).add_tag(tags.last())
        }
    }

    /// The store with each of `projects` put under its identifier, in order.
    pub open spec fn with_projects(self, projects: Seq<ProjectView>) -> RepositoryView
        decreases projects.len(),
    {
        if projects.len() == 0 {
            self
        } else {
            self.with_projects(projects.drop_last()).add_project(projects.last())
        }
    }

    /// The store with each of `tasks` put under its identifier, in order,
    /// every project's list left as it is.
    pub open spec fn with_tasks(self, tasks: Seq<TaskView>) -> RepositoryView
        decreases tasks.len(),
    {
        if tasks.len() == 0 {
            self
        } else {
            self.with_tasks(tasks.drop_last()).put_task(tasks.last())
        }
    }
}

/// A change to the store.
pub enum Mutation {
    AddTag(TagView),
    RemoveTag(TagId),
    AddProject(ProjectView),
    RemoveProject(ProjectId),
    AddTask(TaskView),
    RemoveTask(TaskId),
}

impl RepositoryView {
    /// The store after the change `change`.
    pub open spec fn apply(self, change: Mutation) -> RepositoryView {
        match change {
            Mutation::AddTag(tag) => self.add_tag(tag),
            Mutation::RemoveTag(id) => self.remove_tag(id),
            Mutation::AddProject(project) => self.add_project(project),
            Mutation::RemoveProject(id) => self.remove_project(id),
            Mutation::AddTask(task) => self.add_task(task),
            Mutation::RemoveTask(id) => self.remove_task(id),
        }
    }

    /// Whether `change` leaves every project's list exact: a project comes
    /// with the list of the stored tasks that belong to it, each once, and a
    /// task does not take the identifier of a stored task whose project is
    /// stored.
    pub open spec fn admits(self, change: Mutation) -> bool {
        match change {
            Mutation::AddProject(project) => {
                &&& project.tasks.no_duplicates()
                &&& forall|t: TaskId| project.tasks.contains(t) <==> #[trigger] self.owns(project.id, t)
            },
            Mutation::AddTask(task) => !(self.tasks.contains_key(task.id)
                && self.projects.contains_key(self.tasks[task.id].project_id)),
            _ => true,
        }
    }

    /// The store after the changes `changes`, made in order.
    pub open spec fn apply_all(self, changes: Seq<Mutation>) -> RepositoryView
        decreases changes.len(),
    {
        if changes.len() == 0 {
            self
        } else {
            self.apply(changes[0]).apply_all(changes.drop_first())
        }
    }

    /// Whether each of `changes`, made in order, meets `admits` when its turn
    /// comes.
    pub open spec fn admits_all(self, changes: Seq<Mutation>) -> bool
        decreases changes.len(),
    {
        changes.len() == 0 || (self.admits(changes[0]) && self.apply(changes[0]).admits_all(
            changes.drop_first(),
        ))
    }
}

/// Adding a task keeps every project's list exact.
proof fn lemma_add_task_consistent(store: RepositoryView, task: TaskView)
    requires
        store.consistent(),
        store.admits(Mutation::AddTask(task)),
    ensures
        store.add_task(task).consistent(),
{
    let next = store.add_task(task);
    assert(!store.tasks.contains_key(task.id) || !store.projects.contains_key(
        store.tasks[task.id].project_id,
    ));
    assert forall|p: ProjectId| next.projects.contains_key(p) implies (
    #[trigger] next.projects[p]).tasks.no_duplicates() by {
        assert(store.projects[p].tasks.no_duplicates());
        if p == task.project_id {
            let list = store.projects[p].tasks;
            assert(!store.owns(p, task.id));
            assert(!list.contains(task.id));
            assert forall|i: int, j: int|
                0 <= i < list.len() + 1 && 0 <= j < list.len() + 1 && i != j implies list.push(
                task.id,
            )[i] != list.push(task.id)[j] by {
                if i < list.len() {
                    assert(list.contains(list[i]));
                }
                if j < list.len() {
                    assert(list.contains(list[j]));
                }
            }
        }
    }
    assert forall|p: ProjectId, t: TaskId| next.projects.contains_key(p) implies (
    next.projects[p].tasks.contains(t) <==> #[trigger] next.owns(p, t)) by {
        let list = store.projects[p].tasks;
        assert(list.contains(t) <==> store.owns(p, t));
        if p == task.project_id {
            let longer = list.push(task.id);
            assert(longer[list.len() as int] == task.id);
            if list.contains(t) {
                let k = choose|k: int| 0 <= k < list.len() && list[k] == t;
                assert(longer[k] == t);
            }
            if longer.contains(t) {
                let k = choose|k: int| 0 <= k < longer.len() && longer[k] == t;
                if k < list.len() {
                    assert(list[k] == t);
                }
            }
        }
    }
}

/// Removing a task keeps every project's list exact.
proof fn lemma_remove_task_consistent(store: RepositoryView, id: TaskId)
    requires
        store.consistent(),
    ensures
        store.remove_task(id).consistent(),
{
    let next = store.remove_task(id);
    if store.tasks.contains_key(id) {
        let task = store.tasks[id];
        assert(task.id == id);
        let owner = task.project_id;
        assert forall|p: ProjectId| next.projects.contains_key(p) implies ((
        #[trigger] next.projects[p]).tasks.no_duplicates() && forall|t: TaskId|
            next.projects[p].tasks.contains(t) <==> next.owns(p, t)) by {
            let list = store.projects[p].tasks;
            assert(list.no_duplicates());
            assert forall|t: TaskId| list.contains(t) <==> store.owns(p, t) by {}
            if p == owner {
                lemma_first_position(list, id);
                assert(store.owns(p, id));
                let at = first_position(list, id);
                let shorter = list.remove(at);
                assert(next.projects[p].tasks == shorter);
                assert forall|i: int, j: int|
                    0 <= i < shorter.len() && 0 <= j < shorter.len() && i != j implies shorter[i]
                    != shorter[j] by {
                    let a = if i < at { i } else { i + 1 };
                    let b = if j < at { j } else { j + 1 };
                    assert(shorter[i] == list[a]);
                    assert(shorter[j] == list[b]);
                }
                assert forall|t: TaskId| shorter.contains(t) <==> next.owns(p, t) by {
                    if shorter.contains(t) {
                        let k = choose|k: int| 0 <= k < shorter.len() && shorter[k] == t;
                        let a = if k < at { k } else { k + 1 };
                        assert(list[a] == t);
                        assert(list.contains(t));
                        assert(a != at);
                        assert(t != id);
                    }
                    if next.owns(p, t) {
                        assert(store.owns(p, t));
                        let k = choose|k: int| 0 <= k < list.len() && list[k] == t;
                        assert(k != at);
                        let a = if k < at { k } else { k - 1 };
                        assert(shorter[a] == t);
                    }
                }
            } else {
                assert(!store.owns(p, id));
                assert forall|t: TaskId| list.contains(t) <==> next.owns(p, t) by {
                    assert(list.contains(t) <==> store.owns(p, t));
                }
            }
        }
    }
}

/// A change that the store admits keeps every project's list exact: it
/// holds the stored tasks that belong to the project, each once.
pub proof fn lemma_change_keeps_lists_exact(store: RepositoryView, change: Mutation)
    requires
        store.consistent(),
        store.admits(change),
    ensures
        store.apply(change).consistent(),
{
    let next = store.apply(change);
    match change {
        Mutation::AddTag(tag) => {
            assert forall|p: ProjectId, t: TaskId| next.projects.contains_key(p) implies (
            next.projects[p].tasks.contains(t) <==> #[trigger] next.owns(p, t)) by {
                assert(store.owns(p, t) == next.owns(p, t));
            }
        },
        Mutation::RemoveTag(id) => {
            assert forall|p: ProjectId, t: TaskId| next.projects.contains_key(p) implies (
            next.projects[p].tasks.contains(t) <==> #[trigger] next.owns(p, t)) by {
                assert(store.owns(p, t) == next.owns(p, t));
            }
        },
        Mutation::AddProject(project) => {
            assert forall|p: ProjectId, t: TaskId| next.projects.contains_key(p) implies (
            next.projects[p].tasks.contains(t) <==> #[trigger] next.owns(p, t)) by {
                assert(store.owns(p, t) == next.owns(p, t));
            }
        },
        Mutation::RemoveProject(id) => {
            assert forall|p: ProjectId, t: TaskId| next.projects.contains_key(p) implies (
            next.projects[p].tasks.contains(t) <==> #[trigger] next.owns(p, t)) by {
                assert(store.owns(p, t) == next.owns(p, t));
            }
        },
        Mutation::AddTask(task) => {
            lemma_add_task_consistent(store, task);
        },
        Mutation::RemoveTask(id) => {
            lemma_remove_task_consistent(store, id);
        },
    }
}

/// Any sequence of changes, each admitted when its turn comes, keeps every
/// project's list exact.
pub proof fn lemma_changes_keep_lists_exact(store: RepositoryView, changes: Seq<Mutation>)
    requires
        store.consistent(),
        store.admits_all(changes),
    ensures
        store.apply_all(changes).consistent(),
    decreases changes.len(),
{
    if changes.len() > 0 {
        lemma_change_keeps_lists_exact(store, changes[0]);
        lemma_changes_keep_lists_exact(store.apply(changes[0]), changes.drop_first());
    }
}

/// In a store whose lists are exact, the stored tasks that a project lists
/// are the stored tasks that belong to it.
pub proof fn lemma_listed_tasks_are_owned(store: RepositoryView, project: ProjectId, task: TaskId)
    requires
        store.consistent(),
        store.projects.contains_key(project),
    ensures
        store.listed_tasks(project).contains(task) <==> store.owns(project, task),
{
}

/// In a store whose lists are exact, every stored task of a stored project
/// is in that project's list.
pub proof fn lemma_consistent_lists_tasks(store: RepositoryView, id: TaskId)
    requires
        store.consistent(),
    ensures
        store.lists_task(id),
{
    if store.tasks.contains_key(id) && store.projects.contains_key(store.tasks[id].project_id) {
        assert(store.owns(store.tasks[id].project_id, id));
    }
}

impl Default for Repository {
    fn default() -> (repository: Self)
        ensures
            repository@.tags == Map::<TagId, TagView>::empty(),
            repository@.projects == Map::<ProjectId, ProjectView>::empty(),
            repository@.tasks == Map::<TaskId, TaskView>::empty(),
            repository@.consistent(),
    {
        let repository = Repository {
            tags: HashMap::new(),
            projects: HashMap::new(),
            tasks: HashMap::new(),
        };
        proof {
            assert(repository@.tags =~= Map::<TagId, TagView>::empty());
            assert(repository@.projects =~= Map::<ProjectId, ProjectView>::empty());
            assert(repository@.tasks =~= Map::<TaskId, TaskView>::empty());
        }
        repository
    }
}

impl Repository {
    /// The store that holds `tags`, `projects` and `tasks`, each under its
    /// identifier; of two with the same identifier the later one stays. The
    /// projects come with their lists of tasks, which are kept as given.
    pub fn load(tags: Vec<Tag>, projects: Vec<Project>, tasks: Vec<Task>) -> (repository: Self)
        ensures
            repository@ == RepositoryView::empty().with_tags(tag_views(tags@)).with_projects(
                project_views(projects@),
            ).with_tasks(task_views(tasks@)),
    {
        let mut repository = Repository::default();
        let ghost all_tags = tag_views(tags@);
        let ghost all_projects = project_views(projects@);
        let ghost all_tasks = task_views(tasks@);
        assert(repository@ == RepositoryView::empty());
        for tag in it: tags
            invariant
                all_tags.len() == it.seq().len(),
                forall|i: int| 0 <= i < it.seq().len() ==> all_tags[i] == (#[trigger] it.seq()[i])@,
                repository@ == RepositoryView::empty().with_tags(all_tags.take(it.index())),
        {
            let ghost at = it.index();
            repository.tags.insert(tag.id.0, tag);
            proof {
                assert(all_tags.take(at + 1).drop_last() =~= all_tags.take(at));
                assert(repository@.tags =~= RepositoryView::empty().with_tags(
                    all_tags.take(at + 1),
                ).tags);
            }
        }
        assert(all_tags.take(all_tags.len() as int) =~= all_tags);
        let ghost tagged = repository@;
        for project in it: projects
            invariant
                all_projects.len() == it.seq().len(),
                forall|i: int|
                    0 <= i < it.seq().len() ==> all_projects[i] == (#[trigger] it.seq()[i])@,
                repository@ == tagged.with_projects(all_projects.take(it.index())),
        {
            let ghost at = it.index();
            repository.projects.insert(project.id.0, project);
            proof {
                assert(all_projects.take(at + 1).drop_last() =~= all_projects.take(at));
                assert(repository@.projects =~= tagged.with_projects(
                    all_projects.take(at + 1),
                ).projects);
            }
        }
        assert(all_projects.take(all_projects.len() as int) =~= all_projects);
        let ghost filled = repository@;
        for task in it: tasks
            invariant
                all_tasks.len() == it.seq().len(),
                forall|i: int| 0 <= i < it.seq().len() ==> all_tasks[i] == (#[trigger] it.seq()[i])@,
                repository@ == filled.with_tasks(all_tasks.take(it.index())),
        {
            let ghost at = it.index();
            repository.tasks.insert(task.id.0, task);
            proof {
                assert(all_tasks.take(at + 1).drop_last() =~= all_tasks.take(at));
                assert(repository@.tasks =~= filled.with_tasks(all_tasks.take(at + 1)).tasks);
            }
        }
        assert(all_tasks.take(all_tasks.len() as int) =~= all_tasks);
        repository
    }

    /// The stored tag `id`, if there is one.
    pub fn tag(&self, id: &TagId) -> (found: Option<&Tag>)
        ensures
            match found {
                Some(tag) => self@.tags.contains_key(*id) && tag@ == self@.tags[*id],
                None => !self@.tags.contains_key(*id),
            },
    {
        self.tags.get(&id.0)
    }

    /// The stored project `id`, if there is one.
    pub fn project(&self, id: &ProjectId) -> (found: Option<&Project>)
        ensures
            match found {
                Some(project) => self@.projects.contains_key(*id) && project@
                    == self@.projects[*id],
                None => !self@.projects.contains_key(*id),
            },
    {
        self.projects.get(&id.0)
    }

    /// The stored task `id`, if there is one.
    pub fn task(&self, id: &TaskId) -> (found: Option<&Task>)
        ensures
            match found {
                Some(task) => self@.tasks.contains_key(*id) && task@ == self@.tasks[*id],
                None => !self@.tasks.contains_key(*id),
            },
    {
        self.tasks.get(&id.0)
    }

    /// Whether the task `task_id`, if it is stored under a stored project,
    /// is in that project's list.
    pub fn lists_task(&self, task_id: &TaskId) -> (listed: bool)
        ensures
            listed == self@.lists_task(*task_id),
    {
        match self.tasks.get(&task_id.0) {
            Some(task) => match self.projects.get(&task.project_id.0) {
                Some(project) => lists(&project.tasks, *task_id),
                None => true,
            },
            None => true,
        }
    }

    /// Whether the store takes `task` with every list staying exact: it does
    /// not when a task of that identifier is stored under a stored project.
    pub fn admits_task(&self, task: &Task) -> (admitted: bool)
        ensures
            admitted == self@.admits(Mutation::AddTask(task@)),
    {
        match self.tasks.get(&task.id.0) {
            Some(stored) => self.projects.get(&stored.project_id.0).is_none(),
            None => true,
        }
    }

    /// Whether the store takes `project` with every list staying exact: the
    /// project comes with the list of the stored tasks that belong to it,
    /// each once.
    pub fn admits_project(&self, project: &Project) -> (admitted: bool)
        ensures
            admitted == self@.admits(Mutation::AddProject(project@)),
    {
        let list = &project.tasks;
        let mut i: usize = 0;
        while i < list.len()
            invariant
                i <= list.len(),
                list@ == project@.tasks,
                forall|a: int, b: int| 0 <= a < b < i ==> list@[a] != list@[b],
                forall|k: int| 0 <= k < i ==> self@.owns(project.id, #[trigger] list@[k]),
            decreases list.len() - i,
        {
            let owned = match self.tasks.get(&list[i].0) {
                Some(task) => task.project_id == project.id,
                None => false,
            };
            if !owned {
                proof {
                    let t = list@[i as int];
                    assert(self@.tasks.contains_key(t) == self.tasks@.contains_key(t.0));
                    assert(project@.tasks.contains(t));
                    assert(!self@.owns(project@.id, t));
                }
                return false;
            }
            let mut j: usize = 0;
            while j < i
                invariant
                    j <= i < list.len(),
                    list@ == project@.tasks,
                    forall|k: int| 0 <= k < j ==> list@[k] != list@[i as int],
                decreases i - j,
            {
                if list[j] == list[i] {
                    assert(project@.tasks[j as int] == project@.tasks[i as int]);
                    return false;
                }
                j += 1;
            }
            i += 1;
        }
        let keys = keys_of_map(&self.tasks);
        let mut n: usize = 0;
        while n < keys.len()
            invariant
                n <= keys.len(),
                list@ == project@.tasks,
                forall|k: u32| keys@.contains(k) <==> self.tasks@.contains_key(k),
                forall|k: int|
                    0 <= k < n && self@.owns(project.id, TaskId(#[trigger] keys@[k])) ==> list@.contains(
                        TaskId(keys@[k]),
                    ),
            decreases keys.len() - n,
        {
            assert(keys@.contains(keys@[n as int]));
            let task = self.tasks.get(&keys[n]).unwrap();
            if task.project_id == project.id && !lists(list, TaskId(keys[n])) {
                proof {
                    let t = TaskId(keys@[n as int]);
                    assert(self@.owns(project@.id, t));
                    assert(!project@.tasks.contains(t));
                }
                return false;
            }
            n += 1;
        }
        proof {
            assert forall|t: TaskId| list@.contains(t) <==> #[trigger] self@.owns(project.id, t) by {
                if list@.contains(t) {
                    let k = choose|k: int| 0 <= k < list@.len() && list@[k] == t;
                    assert(self@.owns(project.id, list@[k]));
                }
                if self@.owns(project.id, t) {
                    assert(keys@.contains(t.0));
                    let k = choose|k: int| 0 <= k < keys@.len() && keys@[k] == t.0;
                    assert(self@.owns(project.id, TaskId(keys@[k])));
                }
            }
        }
        true
    }

    /// Stores `tag` under its identifier, in place of any tag stored there.
    pub fn add_tag(&mut self, tag: Tag)
        ensures
            final(self)@ == old(self)@.add_tag(tag@),
            old(self)@.consistent() ==> final(self)@.consistent(),
    {
        self.tags.insert(tag.id.0, tag);
        proof {
            assert(self@.tags =~= old(self)@.add_tag(tag@).tags);
            if old(self)@.consistent() {
                lemma_change_keeps_lists_exact(old(self)@, Mutation::AddTag(tag@));
            }
        }
    }

    /// Removes the tag `tag_id`. Projects and tasks that name it keep
    /// doing so.
    pub fn remove_tag(&mut self, tag_id: &TagId)
        ensures
            final(self)@ == old(self)@.remove_tag(*tag_id),
            old(self)@.consistent() ==> final(self)@.consistent(),
    {
        self.tags.remove(&tag_id.0);
        proof {
            assert(self@.tags =~= old(self)@.remove_tag(*tag_id).tags);
            if old(self)@.consistent() {
                lemma_change_keeps_lists_exact(old(self)@, Mutation::RemoveTag(*tag_id));
            }
        }
    }

    /// Stores `project` under its identifier, in place of any project stored
    /// there. The project comes with the list of the stored tasks that
    /// belong to it, each once: an empty list where no stored task names it.
    pub fn add_project(&mut self, project: Project)
        requires
            old(self)@.admits(Mutation::AddProject(project@)),
        ensures
            final(self)@ == old(self)@.add_project(project@),
            old(self)@.consistent() ==> final(self)@.consistent(),
    {
        self.projects.insert(project.id.0, project);
        proof {
            assert(self@.projects =~= old(self)@.add_project(project@).projects);
            if old(self)@.consistent() {
                lemma_change_keeps_lists_exact(old(self)@, Mutation::AddProject(project@));
            }
        }
    }

    /// Removes the project `project_id`. Its tasks stay in the store.
    pub fn remove_project(&mut self, project_id: &ProjectId)
        ensures
            final(self)@ == old(self)@.remove_project(*project_id),
            old(self)@.consistent() ==> final(self)@.consistent(),
    {
        self.projects.remove(&project_id.0);
        proof {
            assert(self@.projects =~= old(self)@.remove_project(*project_id).projects);
            if old(self)@.consistent() {
                lemma_change_keeps_lists_exact(old(self)@, Mutation::RemoveProject(*project_id));
            }
        }
    }

    /// Stores `task` and appends it to the list of its project. The project
    /// is stored, and the task does not take the identifier of a stored task
    /// whose project is stored.
    pub fn add_task(&mut self, task: Task)
        requires
            old(self)@.projects.contains_key(task.project_id),
            old(self)@.admits(Mutation::AddTask(task@)),
        ensures
            final(self)@ == old(self)@.add_task(task@),
            old(self)@.consistent() ==> final(self)@.consistent(),
    {
        let owner = self.projects.remove(&task.project_id.0);
        if let Some(mut project) = owner {
            project.tasks.push(task.id);
            self.projects.insert(task.project_id.0, project);
        }
        self.tasks.insert(task.id.0, task);
        proof {
            assert(self@.projects =~= old(self)@.add_task(task@).projects);
            assert(self@.tasks =~= old(self)@.add_task(task@).tasks);
            if old(self)@.consistent() {
                lemma_change_keeps_lists_exact(old(self)@, Mutation::AddTask(task@));
            }
        }
    }

    /// Removes the task `task_id` from the store and from the list of its
    /// project. Nothing changes when no such task is stored.
    pub fn remove_task(&mut self, task_id: &TaskId)
        requires
            old(self)@.lists_task(*task_id),
        ensures
            final(self)@ == old(self)@.remove_task(*task_id),
            old(self)@.consistent() ==> final(self)@.consistent(),
    {
        let removed = self.tasks.remove(&task_id.0);
        if let Some(task) = removed {
            let owner = self.projects.remove(&task.project_id.0);
            if let Some(mut project) = owner {
                let ghost list = project.tasks@;
                proof {
                    lemma_first_position(list, *task_id);
                }
                let mut index: usize = 0;
                while index < project.tasks.len() && project.tasks[index] != *task_id
                    invariant
                        index <= project.tasks.len(),
                        project.tasks@ == list,
                        forall|k: int| 0 <= k < index ==> list[k] != *task_id,
                    decreases project.tasks.len() - index,
                {
                    index += 1;
                }
                assert(index == first_position(list, *task_id));
                project.tasks.remove(index);
                self.projects.insert(task.project_id.0, project);
            }
        }
        proof {
            assert(self@.projects =~= old(self)@.remove_task(*task_id).projects);
            assert(self@.tasks =~= old(self)@.remove_task(*task_id).tasks);
            if old(self)@.consistent() {
                lemma_change_keeps_lists_exact(old(self)@, Mutation::RemoveTask(*task_id));
            }
        }
    }
}

/// The keys of `map`, each once, in the order in which the map is walked.
fn keys_of_map<V>(map: &HashMap<u32, V>) -> (keys: Vec<u32>)
    ensures
        keys@.no_duplicates(),
        forall|k: u32| keys@.contains(k) <==> map@.contains_key(k),
{
    let mut keys: Vec<u32> = Vec::new();
    let ghost walk = map.keys().remaining();
    for key in it: map.keys()
        invariant
            it.seq() == walk,
            keys@ == walk.take(it.index() as int).unref(),
    {
        keys.push(*key);
    }
    proof {
        assert(walk.take(walk.len() as int) == walk);
        assert(keys@.to_set() == map@.dom());
        assert forall|k: u32| keys@.contains(k) <==> map@.contains_key(k) by {
            assert(keys@.to_set().contains(k) == keys@.contains(k));
        }
    }
    keys
}

/// Whether `id` occurs in `list`.
fn lists(list: &Vec<TaskId>, id: TaskId) -> (found: bool)
    ensures
        found == list@.contains(id),
{
    let mut i: usize = 0;
    while i < list.len()
        invariant
            i <= list.len(),
            forall|k: int| 0 <= k < i ==> list@[k] != id,
        decreases list.len() - i,
    {
        if list[i] == id {
            return true;
        }
        i += 1;
    }
    false
}

/// The first key in the walk of `map` of whose value `is` holds, if there
/// is one.
fn first_key<V, F: Fn(&V) -> bool>(map: &HashMap<u32, V>, is: F) -> (found: Option<u32>)
    requires
        forall|k: u32| map@.contains_key(k) ==> call_requires(is, (&map@[k],)),
    ensures
        match found {
            Some(key) => map@.contains_key(key) && call_ensures(is, (&map@[key],), true),
            None => forall|k: u32| map@.contains_key(k) ==> call_ensures(is, (&map@[k],), false),
        },
{
    let keys = keys_of_map(map);
    let mut i: usize = 0;
    while i < keys.len()
        invariant
            i <= keys.len(),
            forall|k: u32| keys@.contains(k) <==> map@.contains_key(k),
            forall|k: u32| map@.contains_key(k) ==> call_requires(is, (&map@[k],)),
            forall|j: int|
                0 <= j < i ==> call_ensures(is, (&map@[#[trigger] keys@[j]],), false),
        decreases keys.len() - i,
    {
        assert(keys@.contains(keys@[i as int]));
        let value = map.get(&keys[i]).unwrap();
        if is(value) {
            return Some(keys[i]);
        }
        i += 1;
    }
    proof {
        assert forall|k: u32| map@.contains_key(k) implies call_ensures(
            is,
            (&map@[k],),
            false,
        ) by {
            assert(keys@.contains(k));
            let j = choose|j: int| 0 <= j < keys@.len() && keys@[j] == k;
            assert(call_ensures(is, (&map@[keys@[j]],), false));
        }
    }
    None
}

/// The entries that `pick` makes of the values of `map`, in the order in
/// which the map is walked, and the key behind each entry. A key that has no
/// entry is one of which `pick` made none.
fn picked<V, Id, F: Fn(u32, &V) -> Option<Entry<Id>>>(map: &HashMap<u32, V>, pick: F) -> (r: (
    Vec<Entry<Id>>,
    Ghost<Seq<u32>>,
))
    requires
        forall|k: u32| map@.contains_key(k) ==> call_requires(pick, (k, &map@[k])),
    ensures
        r.1@.len() == r.0@.len(),
        r.1@.no_duplicates(),
        forall|i: int|
            0 <= i < r.1@.len() ==> map@.contains_key(#[trigger] r.1@[i]) && call_ensures(
                pick,
                (r.1@[i], &map@[r.1@[i]]),
                Some(r.0@[i]),
            ),
        forall|k: u32|
            map@.contains_key(k) && !r.1@.contains(k) ==> call_ensures(pick, (k, &map@[k]), None),
{
    let keys = keys_of_map(map);
    let mut entries: Vec<Entry<Id>> = Vec::new();
    let ghost mut from: Seq<int> = Seq::empty();
    let mut i: usize = 0;
    while i < keys.len()
        invariant
            i <= keys.len(),
            keys@.no_duplicates(),
            forall|k: u32| keys@.contains(k) <==> map@.contains_key(k),
            forall|k: u32| map@.contains_key(k) ==> call_requires(pick, (k, &map@[k])),
            entries.len() == from.len(),
            forall|n: int| 0 <= n < from.len() ==> 0 <= #[trigger] from[n] < i,
            forall|a: int, b: int| 0 <= a < b < from.len() ==> from[a] < from[b],
            forall|n: int|
                0 <= n < from.len() ==> call_ensures(
                    pick,
                    (keys@[#[trigger] from[n]], &map@[keys@[from[n]]]),
                    Some(entries@[n]),
                ),
            forall|j: int|
                0 <= j < i && !from.contains(j) ==> call_ensures(
                    pick,
                    (#[trigger] keys@[j], &map@[keys@[j]]),
                    None,
                ),
        decreases keys.len() - i,
    {
        assert(keys@.contains(keys@[i as int]));
        let value = map.get(&keys[i]).unwrap();
        let ghost before = from;
        if let Some(entry) = pick(keys[i], value) {
            entries.push(entry);
            proof {
                from = before.push(i as int);
            }
        }
        proof {
            assert forall|j: int| 0 <= j < i + 1 && !from.contains(j) implies call_ensures(
                pick,
                (#[trigger] keys@[j], &map@[keys@[j]]),
                None,
            ) by {
                if j < i && before.contains(j) {
                    let n = choose|n: int| 0 <= n < before.len() && before[n] == j;
                    assert(from[n] == j);
                }
                if j == i && from.len() > before.len() {
                    assert(from[before.len() as int] == j);
                }
            }
        }
        i += 1;
    }
    let ghost behind = Seq::new(from.len(), |n: int| keys@[from[n]]);
    proof {
        assert forall|a: int, b: int| 0 <= a < behind.len() && 0 <= b < behind.len() && a
            != b implies behind[a] != behind[b] by {
            if a < b {
                assert(from[a] < from[b]);
            } else {
                assert(from[b] < from[a]);
            }
        }
        assert forall|n: int| 0 <= n < behind.len() implies map@.contains_key(
            #[trigger] behind[n],
        ) && call_ensures(pick, (behind[n], &map@[behind[n]]), Some(entries@[n])) by {
            assert(keys@.contains(keys@[from[n]]));
        }
        assert forall|k: u32| map@.contains_key(k) && !behind.contains(k) implies call_ensures(
            pick,
            (k, &map@[k]),
            None,
        ) by {
            assert(keys@.contains(k));
            let j = choose|j: int| 0 <= j < keys@.len() && keys@[j] == k;
            if from.contains(j) {
                let n = choose|n: int| 0 <= n < from.len() && from[n] == j;
                assert(behind[n] == k);
            }
        }
    }
    (entries, Ghost(behind))
}

/// Entries that stand one for one for distinct keys offer `members` when
/// each of them is a member and every member's key is among the keys.
proof fn lemma_picked_offer<Id>(
    entries: Seq<Entry<Id>>,
    keys: Seq<u32>,
    members: Set<Id>,
    key_of: spec_fn(Id) -> u32,
)
    requires
        keys.len() == entries.len(),
        keys.no_duplicates(),
        forall|a: Id, b: Id| #[trigger] key_of(a) == #[trigger] key_of(b) ==> a == b,
        forall|k: int|
            0 <= k < entries.len() ==> key_of((#[trigger] entries[k]).id) == keys[k]
                && members.contains(entries[k].id),
        forall|id: Id| members.contains(id) ==> keys.contains(key_of(id)),
    ensures
        offers(entries, members),
{
    assert forall|id: Id| members.contains(id) implies exists|k: int|
        0 <= k < entries.len() && #[trigger] entries[k].id == id by {
        assert(keys.contains(key_of(id)));
        let k = choose|k: int| 0 <= k < keys.len() && keys[k] == key_of(id);
        assert(key_of(entries[k].id) == key_of(id));
    }
    assert forall|a: int, b: int| 0 <= a < b < entries.len() implies #[trigger] entries[a].id
        != #[trigger] entries[b].id by {
        assert(key_of(entries[a].id) != key_of(entries[b].id));
    }
}

impl RepositoryView {
    /// The stored tasks that the project `project` lists.
    pub open spec fn listed_tasks(self, project: ProjectId) -> Set<TaskId> {
        Set::new(
            |t: TaskId| self.tasks.contains_key(t) && self.projects[project].tasks.contains(t),
        )
    }

    /// The stored tags whose names start with `prefix`.
    pub open spec fn matching_tags(self, prefix: Seq<char>) -> Set<TagId> {
        Set::new(
            |t: TagId| self.tags.contains_key(t) && name_starts_with(self.tags[t].name, prefix),
        )
    }

    /// The name of each stored project.
    pub open spec fn project_names(self) -> Map<ProjectId, Seq<char>> {
        Map::new(|p: ProjectId| self.projects.contains_key(p), |p: ProjectId| self.projects[p].name)
    }

    /// The name of each stored task.
    pub open spec fn task_names(self) -> Map<TaskId, Seq<char>> {
        Map::new(|t: TaskId| self.tasks.contains_key(t), |t: TaskId| self.tasks[t].name)
    }

    /// The name of each stored tag.
    pub open spec fn tag_names(self) -> Map<TagId, Seq<char>> {
        Map::new(|t: TagId| self.tags.contains_key(t), |t: TagId| self.tags[t].name)
    }

    /// `ids` holds every stored project once, by ascending name.
    pub open spec fn lists_projects(self, ids: Seq<ProjectId>) -> bool {
        lists_by_name(ids, self.projects.dom(), self.project_names())
    }

    /// `ids` holds every stored task that `project` lists once, by ascending
    /// name.
    pub open spec fn lists_tasks(self, project: ProjectId, ids: Seq<TaskId>) -> bool {
        lists_by_name(ids, self.listed_tasks(project), self.task_names())
    }

    /// `ids` holds every stored tag whose name starts with `prefix` once, by
    /// ascending name.
    pub open spec fn lists_tags(self, prefix: Seq<char>, ids: Seq<TagId>) -> bool {
        lists_by_name(ids, self.matching_tags(prefix), self.tag_names())
    }
}

impl Repository {
    /// One entry for each stored project, with the project's name as its
    /// key, in the order in which the store is walked.
    pub fn project_entries(&self) -> (entries: Vec<Entry<ProjectId>>)
        ensures
            offers(entries@, self@.projects.dom()),
            forall|k: int|
                0 <= k < entries.len() ==> (#[trigger] entries@[k]).key@
                    == self@.projects[entries@[k].id].name,
    {
        let pick = |key: u32, project: &Project| -> (entry: Option<Entry<ProjectId>>)
            ensures
                entry matches Some(e) && e.id == ProjectId(key) && e.key@ == project.name@,
            { Some(Entry { id: ProjectId(key), key: project.name.clone() }) };
        let (entries, Ghost(keys)) = picked(&self.projects, pick);
        proof {
            let members = self@.projects.dom();
            assert forall|k: int| 0 <= k < entries.len() implies (#[trigger] entries@[k]).id.0
                == keys[k] && members.contains(entries@[k].id) && entries@[k].key@
                == self@.projects[entries@[k].id].name by {
                assert(self.projects@.contains_key(keys[k]));
            }
            assert forall|id: ProjectId| members.contains(id) implies keys.contains(id.0) by {
                assert(self.projects@.contains_key(id.0));
            }
            lemma_picked_offer(entries@, keys, members, |id: ProjectId| id.0);
        }
        entries
    }

    /// One entry for each stored task that `project` lists, with the task's
    /// name as its key, in the order in which the store is walked.
    pub fn task_entries(&self, project: &Project) -> (entries: Vec<Entry<TaskId>>)
        ensures
            offers(
                entries@,
                Set::new(|t: TaskId| self@.tasks.contains_key(t) && project.tasks@.contains(t)),
            ),
            forall|k: int|
                0 <= k < entries.len() ==> (#[trigger] entries@[k]).key@
                    == self@.tasks[entries@[k].id].name,
    {
        let list = &project.tasks;
        let ghost members = Set::new(
            |t: TaskId| self@.tasks.contains_key(t) && project.tasks@.contains(t),
        );
        let pick = |key: u32, task: &Task| -> (entry: Option<Entry<TaskId>>)
            ensures
                entry is Some <==> list@.contains(TaskId(key)),
                entry matches Some(e) ==> e.id == TaskId(key) && e.key@ == task.name@,
            {
                if lists(list, TaskId(key)) {
                    Some(Entry { id: TaskId(key), key: task.name.clone() })
                } else {
                    None
                }
            };
        let (entries, Ghost(keys)) = picked(&self.tasks, pick);
        proof {
            assert forall|k: int| 0 <= k < entries.len() implies (#[trigger] entries@[k]).id.0
                == keys[k] && members.contains(entries@[k].id) && entries@[k].key@
                == self@.tasks[entries@[k].id].name by {
                assert(self.tasks@.contains_key(keys[k]));
            }
            assert forall|id: TaskId| members.contains(id) implies keys.contains(id.0) by {
                assert(self.tasks@.contains_key(id.0));
            }
            lemma_picked_offer(entries@, keys, members, |id: TaskId| id.0);
        }
        entries
    }

    /// One entry for each stored tag whose name starts with `prefix`, with
    /// the tag's name as its key, in the order in which the store is walked.
    pub fn tag_entries(&self, prefix: &str) -> (entries: Vec<Entry<TagId>>)
        ensures
            offers(entries@, self@.matching_tags(prefix@)),
            forall|k: int|
                0 <= k < entries.len() ==> (#[trigger] entries@[k]).key@
                    == self@.tags[entries@[k].id].name,
    {
        let pick = |key: u32, tag: &Tag| -> (entry: Option<Entry<TagId>>)
            ensures
                entry is Some <==> name_starts_with(tag.name@, prefix@),
                entry matches Some(e) ==> e.id == TagId(key) && e.key@ == tag.name@,
            {
                if starts_with(tag.name.as_str(), prefix) {
                    Some(Entry { id: TagId(key), key: tag.name.clone() })
                } else {
                    None
                }
            };
        let (entries, Ghost(keys)) = picked(&self.tags, pick);
        proof {
            let members = self@.matching_tags(prefix@);
            assert forall|k: int| 0 <= k < entries.len() implies (#[trigger] entries@[k]).id.0
                == keys[k] && members.contains(entries@[k].id) && entries@[k].key@
                == self@.tags[entries@[k].id].name by {
                assert(self.tags@.contains_key(keys[k]));
            }
            assert forall|id: TagId| members.contains(id) implies keys.contains(id.0) by {
                assert(self.tags@.contains_key(id.0));
            }
            lemma_picked_offer(entries@, keys, members, |id: TagId| id.0);
        }
        entries
    }

    /// A stored tag named `name`, if there is one; where several are, the
    /// one that the walk of the store meets first.
    pub fn get_tag_by_name(&self, name: &str) -> (found: Option<&Tag>)
        ensures
            match found {
                Some(tag) => tag.name@ == name@ && exists|id: TagId|
                    self@.tags.contains_key(id) && #[trigger] self@.tags[id] == tag@,
                None => forall|id: TagId|
                    self@.tags.contains_key(id) ==> (#[trigger] self@.tags[id]).name != name@,
            },
    {
        let named = |tag: &Tag| -> (same: bool)
            ensures
                same == (tag.name@ == name@),
            { same_name(tag.name.as_str(), name) };
        match first_key(&self.tags, named) {
            Some(key) => {
                assert(self@.tags.contains_key(TagId(key)));
                assert(self@.tags[TagId(key)] == self.tags@[key]@);
                self.tags.get(&key)
            },
            None => {
                assert forall|id: TagId| self@.tags.contains_key(id) implies (
                #[trigger] self@.tags[id]).name != name@ by {
                    assert(self.tags@.contains_key(id.0));
                }
                None
            },
        }
    }

    /// A stored project named `name`, if there is one; where several are,
    /// the one that the walk of the store meets first.
    pub fn get_project_by_name(&self, name: &str) -> (found: Option<&Project>)
        ensures
            match found {
                Some(project) => project.name@ == name@ && exists|id: ProjectId|
                    self@.projects.contains_key(id) && #[trigger] self@.projects[id] == project@,
                None => forall|id: ProjectId|
                    self@.projects.contains_key(id) ==> (#[trigger] self@.projects[id]).name
                        != name@,
            },
    {
        let named = |project: &Project| -> (same: bool)
            ensures
                same == (project.name@ == name@),
            { same_name(project.name.as_str(), name) };
        match first_key(&self.projects, named) {
            Some(key) => {
                assert(self@.projects.contains_key(ProjectId(key)));
                assert(self@.projects[ProjectId(key)] == self.projects@[key]@);
                self.projects.get(&key)
            },
            None => {
                assert forall|id: ProjectId| self@.projects.contains_key(id) implies (
                #[trigger] self@.projects[id]).name != name@ by {
                    assert(self.projects@.contains_key(id.0));
                }
                None
            },
        }
    }
}

} // verus!
