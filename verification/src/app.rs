//! The application state: the store, the lists that show it, and the stack
//! of open prompts.

use vstd::prelude::*;

use crate::explorer::{is_cursor_for, Explorer, ExplorerState, ExplorerView};
use crate::input::{Prompt, PromptView};
use crate::model::{Project, ProjectId, ProjectView, Tag, TagId, TagView, Task, TaskId, TaskView};
use crate::repository::{Mutation, Repository, RepositoryView};

verus! {

/// What the user has set. Nothing yet.
#[derive(Debug)]
pub struct Settings {}

impl Default for Settings {
    fn default() -> (settings: Self) {
        Settings {  }
    }
}

/// The part of the screen that keys go to while no prompt is open.
#[derive(Clone, Copy, Debug, PartialEq, Eq, Structural)]
pub enum Pane {
    ProjectExplorer,
    Main,
}

impl Default for Pane {
    fn default() -> (pane: Self)
        ensures
            pane == Pane::ProjectExplorer,
    {
        Pane::ProjectExplorer
    }
}

/// What the screen shows.
#[derive(Debug)]
pub struct State {
    pub focus: Pane,
    pub prompt_stack: Vec<Prompt>,
    pub explorer: ExplorerState,
}

impl Default for State {
    fn default() -> (state: Self)
        ensures
            state.focus == Pane::ProjectExplorer,
            state.prompt_stack@.len() == 0,
            state.explorer@.projects.items.len() == 0,
            state.explorer@.projects.selected == 0,
            !state.explorer@.collapsed,
            state.explorer@.tasks is None,
    {
        State { focus: Pane::default(), prompt_stack: Vec::new(), explorer: ExplorerState::default() }
    }
}

/// The prompts of `stack` as mathematical values, the top one last.
pub open spec fn prompt_views(stack: Seq<Prompt>) -> Seq<PromptView> {
    Seq::new(stack.len(), |i: int| stack[i]@)
}

/// The whole application.
#[derive(Debug)]
pub struct App {
    pub(crate) settings: Settings,
    pub(crate) state: State,
    pub(crate) repository: Repository,
}

/// What the application is, as a mathematical value.
pub struct AppView {
    pub settings: Settings,
    pub focus: Pane,
    /// The open prompts, the top one last.
    pub prompts: Seq<PromptView>,
    pub explorer: ExplorerView,
    pub repository: RepositoryView,
}

impl View for App {
    type V = AppView;

    open(crate) spec fn view(&self) -> AppView {
        AppView {
            settings: self.settings,
            focus: self.state.focus,
            prompts: prompt_views(self.state.prompt_stack@),
            explorer: self.state.explorer@,
            repository: self.repository@,
        }
    }
}

/// What the storage reports once it has carried out a command.
#[derive(Debug)]
pub enum Outcome {
    TagCreated(Tag),
    ProjectCreated(Project),
    TaskCreated(Task),
    TagDeleted(TagId),
    ProjectDeleted(ProjectId),
    TaskDeleted(TaskId),
    TaskTagged(TaskId, TagId),
}

/// What an outcome is, as a mathematical value.
pub enum OutcomeView {
    TagCreated(TagView),
    ProjectCreated(ProjectView),
    TaskCreated(TaskView),
    TagDeleted(TagId),
    ProjectDeleted(ProjectId),
    TaskDeleted(TaskId),
    TaskTagged(TaskId, TagId),
}

impl View for Outcome {
    type V = OutcomeView;

    open spec fn view(&self) -> OutcomeView {
        match self {
            Outcome::TagCreated(tag) => OutcomeView::TagCreated(tag@),
            Outcome::ProjectCreated(project) => OutcomeView::ProjectCreated(project@),
            Outcome::TaskCreated(task) => OutcomeView::TaskCreated(task@),
            Outcome::TagDeleted(id) => OutcomeView::TagDeleted(*id),
            Outcome::ProjectDeleted(id) => OutcomeView::ProjectDeleted(*id),
            Outcome::TaskDeleted(id) => OutcomeView::TaskDeleted(*id),
            Outcome::TaskTagged(task, tag) => OutcomeView::TaskTagged(*task, *tag),
        }
    }
}

/// Why an outcome cannot be taken into the store.
#[derive(Clone, Copy, Debug, PartialEq, Eq, Structural)]
pub enum Inconsistency {
    /// A task was created for a project that the store does not hold.
    ProjectMissing(ProjectId),
    /// A task was created under the identifier of a stored task whose
    /// project is stored.
    TaskRepeated(TaskId),
    /// A project was created with a list that is not the list of the stored
    /// tasks that belong to it.
    ListMismatch(ProjectId),
    /// A task was deleted that its project does not list.
    TaskUnlisted(TaskId),
}

impl OutcomeView {
    /// The change that the outcome makes to the store, if it makes one.
    pub open spec fn mutation(self) -> Option<Mutation> {
        match self {
            OutcomeView::TagCreated(tag) => Some(Mutation::AddTag(tag)),
            OutcomeView::ProjectCreated(project) => Some(Mutation::AddProject(project)),
            OutcomeView::TaskCreated(task) => Some(Mutation::AddTask(task)),
            OutcomeView::TagDeleted(id) => Some(Mutation::RemoveTag(id)),
            OutcomeView::ProjectDeleted(id) => Some(Mutation::RemoveProject(id)),
            OutcomeView::TaskDeleted(id) => Some(Mutation::RemoveTask(id)),
            OutcomeView::TaskTagged(_, _) => None,
        }
    }
}

impl AppView {
    /// The lists show what the store holds.
    pub open spec fn wf(self) -> bool {
        self.explorer.shows(self.repository)
    }

    /// No prompt is open.
    pub open spec fn is_idle(self) -> bool {
        self.prompts.len() == 0
    }

    /// The application with `prompt` opened on top.
    pub open spec fn show(self, prompt: PromptView) -> AppView {
        AppView { prompts: self.prompts.push(prompt), ..self }
    }

    /// The application with its top prompt closed.
    pub open spec fn close(self) -> AppView {
        if self.prompts.len() > 0 {
            AppView { prompts: self.prompts.drop_last(), ..self }
        } else {
            self
        }
    }

    /// The application with the focus on the pane that the layout gives it:
    /// the main pane when the project list is folded away.
    pub open spec fn refocused(self) -> AppView {
        AppView { focus: if self.explorer.collapsed { Pane::Main } else { Pane::ProjectExplorer }, ..self }
    }

    /// The application with the project list folded away or not.
    pub open spec fn folded(self, collapsed: bool) -> AppView {
        AppView { explorer: ExplorerView { collapsed, ..self.explorer }, ..self }.refocused()
    }

    /// `after` has the prompts of this application, the top one brought up
    /// to date with the store of `after`.
    pub open spec fn awakened(self, after: AppView) -> bool {
        &&& after.prompts.len() == self.prompts.len()
        &&& forall|i: int| 0 <= i < self.prompts.len() - 1 ==> after.prompts[i] == self.prompts[i]
        &&& self.prompts.len() > 0 ==> self.prompts.last().awakened(
            after.repository,
            after.prompts.last(),
        )
    }

    /// `after` is this application with both lists rebuilt from the store,
    /// the cursor of the project list on the project `selected` or else on
    /// the first.
    pub open spec fn synced(self, selected: Option<ProjectId>, after: AppView) -> bool {
        &&& after.settings == self.settings
        &&& after.focus == self.focus
        &&& after.prompts == self.prompts
        &&& after.repository == self.repository
        &&& after.explorer.collapsed == self.explorer.collapsed
        &&& after.explorer.shows(after.repository)
        &&& after.explorer.recascaded(after.repository)
        &&& is_cursor_for(after.explorer.projects.selected, selected, after.explorer.projects.items)
    }

    /// Why `outcome` cannot be taken into the store, if it cannot.
    pub open spec fn rejects(self, outcome: OutcomeView) -> Option<Inconsistency> {
        match outcome {
            OutcomeView::ProjectCreated(project) if !self.repository.admits(
                Mutation::AddProject(project),
            ) => Some(Inconsistency::ListMismatch(project.id)),
            OutcomeView::TaskCreated(task) if !self.repository.projects.contains_key(
                task.project_id,
            ) => Some(Inconsistency::ProjectMissing(task.project_id)),
            OutcomeView::TaskCreated(task) if !self.repository.admits(Mutation::AddTask(task)) => Some(
                Inconsistency::TaskRepeated(task.id),
            ),
            OutcomeView::TaskDeleted(id) if !self.repository.lists_task(id) => Some(
                Inconsistency::TaskUnlisted(id),
            ),
            _ => None,
        }
    }

    /// The project that the cursor of the project list looks for once
    /// `outcome` is in the store: after a project was deleted the one a line
    /// up, else the one it is on.
    pub open spec fn sought_project(self, outcome: OutcomeView) -> Option<ProjectId> {
        match outcome {
            OutcomeView::ProjectDeleted(_) => self.explorer.projects.previous().selected_id(),
            _ => self.explorer.projects.selected_id(),
        }
    }

    /// `after` is this application once `outcome` was taken in: the store
    /// changed, both lists rebuilt from it, the top prompt brought up to
    /// date.
    pub open spec fn completed(self, outcome: OutcomeView, after: AppView) -> bool {
        &&& after.settings == self.settings
        &&& after.focus == self.focus
        &&& self.awakened(after)
        &&& match outcome.mutation() {
            Some(change) => {
                &&& after.repository == self.repository.apply(change)
                &&& after.explorer.collapsed == self.explorer.collapsed
                &&& after.explorer.shows(after.repository)
                &&& after.explorer.recascaded(after.repository)
                &&& is_cursor_for(
                    after.explorer.projects.selected,
                    self.sought_project(outcome),
                    after.explorer.projects.items,
                )
            },
            None => after.repository == self.repository && after.explorer == self.explorer,
        }
    }
}

impl App {
    /// An application over `repository`, with both lists rebuilt from it.
    pub fn new(settings: Settings, state: State, repository: Repository) -> (app: Self)
        ensures
            app@.wf(),
            app@.explorer.recascaded(app@.repository),
            app@.settings == settings,
            app@.repository == repository@,
            app@.focus == state.focus,
            app@.prompts == prompt_views(state.prompt_stack@),
            app@.explorer.collapsed == state.explorer@.collapsed,
            is_cursor_for(
                app@.explorer.projects.selected,
                state.explorer@.projects.selected_id(),
                app@.explorer.projects.items,
            ),
    {
        let mut app = App { settings, state, repository };
        app.state.explorer.sync(&app.repository);
        app
    }

    /// What the user has set.
    pub fn settings(&self) -> (settings: &Settings)
        ensures
            *settings == self@.settings,
    {
        &self.settings
    }

    /// What the screen shows.
    pub fn state(&self) -> (state: &State)
        ensures
            state.focus == self@.focus,
            prompt_views(state.prompt_stack@) == self@.prompts,
            state.explorer@ == self@.explorer,
    {
        &self.state
    }

    /// The store.
    pub fn repository(&self) -> (repository: &Repository)
        ensures
            repository@ == self@.repository,
    {
        &self.repository
    }

    /// Rebuilds both lists from the store, the cursor of the project list
    /// staying on the project it was on.
    pub fn sync(&mut self)
        ensures
            old(self)@.synced(old(self)@.explorer.projects.selected_id(), final(self)@),
    {
        self.state.explorer.sync(&self.repository);
    }

    /// Gives the focus to the pane that the layout calls for.
    pub fn update_focus(&mut self)
        ensures
            final(self)@ == old(self)@.refocused(),
    {
        if self.state.explorer.collapsed {
            self.state.focus = Pane::Main;
        } else {
            self.state.focus = Pane::ProjectExplorer;
        }
    }

    /// Opens `prompt` on top of the open prompts.
    pub fn show_prompt(&mut self, prompt: Prompt)
        ensures
            final(self)@ == old(self)@.show(prompt@),
    {
        self.state.prompt_stack.push(prompt);
        proof {
            assert(self@.prompts =~= old(self)@.prompts.push(prompt@));
        }
    }

    /// Closes the top prompt and hands it out; `None` when no prompt is
    /// open.
    pub fn close_prompt(&mut self) -> (closed: Option<Prompt>)
        ensures
            final(self)@ == old(self)@.close(),
            match closed {
                Some(prompt) => old(self)@.prompts.len() > 0 && prompt@ == old(self)@.prompts.last(),
                None => old(self)@.prompts.len() == 0,
            },
    {
        let closed = self.state.prompt_stack.pop();
        proof {
            if old(self)@.prompts.len() > 0 {
                assert(self@.prompts =~= old(self)@.prompts.drop_last());
            } else {
                assert(self@.prompts =~= old(self)@.prompts);
            }
        }
        closed
    }

    /// The top prompt; `None` when no prompt is open.
    pub fn prompt(&self) -> (top: Option<&Prompt>)
        ensures
            match top {
                Some(prompt) => self@.prompts.len() > 0 && prompt@ == self@.prompts.last(),
                None => self@.prompts.len() == 0,
            },
    {
        let depth = self.state.prompt_stack.len();
        if depth > 0 {
            Some(&self.state.prompt_stack[depth - 1])
        } else {
            None
        }
    }

    /// Brings the top prompt up to date with the store.
    pub fn awake_prompt(&mut self)
        ensures
            old(self)@.awakened(final(self)@),
            final(self)@.settings == old(self)@.settings,
            final(self)@.focus == old(self)@.focus,
            final(self)@.explorer == old(self)@.explorer,
            final(self)@.repository == old(self)@.repository,
    {
        let top = self.state.prompt_stack.pop();
        if let Some(mut prompt) = top {
            prompt.awake(&self.repository);
            self.state.prompt_stack.push(prompt);
        }
    }

    /// Takes in what the storage reports of a command: changes the store,
    /// rebuilds both lists and brings the top prompt up to date. Nothing
    /// changes when the outcome does not fit the store. A store in which
    /// every project's list is exact stays so.
    pub fn complete(&mut self, outcome: Outcome) -> (result: Result<(), Inconsistency>)
        ensures
            match result {
                Ok(()) => old(self)@.rejects(outcome@) is None && old(self)@.completed(
                    outcome@,
                    final(self)@,
                ),
                Err(why) => old(self)@.rejects(outcome@) == Some(why) && final(self)@ == old(self)@,
            },
            old(self)@.repository.consistent() ==> final(self)@.repository.consistent(),
    {
        match outcome {
            Outcome::TagCreated(tag) => {
                self.repository.add_tag(tag);
                self.state.explorer.sync(&self.repository);
            },
            Outcome::ProjectCreated(project) => {
                if !self.repository.admits_project(&project) {
                    return Err(Inconsistency::ListMismatch(project.id));
                }
                self.repository.add_project(project);
                self.state.explorer.sync(&self.repository);
            },
            Outcome::TaskCreated(task) => {
                if self.repository.project(&task.project_id).is_none() {
                    return Err(Inconsistency::ProjectMissing(task.project_id));
                }
                if !self.repository.admits_task(&task) {
                    return Err(Inconsistency::TaskRepeated(task.id));
                }
                self.repository.add_task(task);
                self.state.explorer.sync(&self.repository);
            },
            Outcome::TagDeleted(id) => {
                self.repository.remove_tag(&id);
                self.state.explorer.sync(&self.repository);
            },
            Outcome::ProjectDeleted(id) => {
                self.state.explorer.projects.previous();
                self.repository.remove_project(&id);
                self.state.explorer.sync(&self.repository);
            },
            Outcome::TaskDeleted(id) => {
                if !self.repository.lists_task(&id) {
                    return Err(Inconsistency::TaskUnlisted(id));
                }
                self.repository.remove_task(&id);
                self.state.explorer.sync(&self.repository);
            },
            Outcome::TaskTagged(_, _) => {},
        }
        self.awake_prompt();
        Ok(())
    }
}

} // verus!
