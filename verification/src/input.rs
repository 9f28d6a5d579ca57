//! Modal prompts, and what each of them does with a key.

use vstd::prelude::*;
use vstd::string::StrSliceExecFns;

use crate::app::{App, AppView, OutcomeView, Pane};
use crate::explorer::{
    is_cursor_for, lemma_listing_by_name, Explorer, ExplorerGroup, ExplorerView, ListView,
};
use crate::keys::{Event, KeyCode, KeyEvent, KeyModifiers, CONTROL, SHIFT};
use crate::model::{ProjectId, TagId, TagView, TaskId};
use crate::prompts;
use crate::prompts::{confirmation, empty_input, PROJECT_NAME_LIMIT, TAG_NAME_LIMIT, TASK_NAME_LIMIT};
use crate::order::name_starts_with;
use crate::repository::{Repository, RepositoryView};
use crate::text::{decimal, letter_or_digit, spec_decimal};

verus! {

/// What is done with the text of an input prompt once it is confirmed.
#[derive(Clone, Copy, Debug, PartialEq, Eq, Structural)]
pub enum InputCallback {
    /// A tag of that name is created.
    NewTag,
    /// A project of that name is created.
    NewProject,
    /// A task of that name is created in the project.
    NewTask(ProjectId),
}

/// What is done with the tag chosen in a selection prompt.
#[derive(Clone, Copy, Debug, PartialEq, Eq, Structural)]
pub enum TagSelectCallback {
    /// The tag is meant for the task.
    TagTask(TaskId),
}

/// What is done once a confirmation prompt is confirmed.
#[derive(Clone, Copy, Debug, PartialEq, Eq, Structural)]
pub enum ConfirmCallback {
    DeleteTag(TagId),
    DeleteProject(ProjectId),
    DeleteTask(TaskId),
}

/// The action of a confirmed prompt, with the value the prompt gave it.
#[derive(Debug)]
pub enum Command {
    CreateTag(String),
    CreateProject(String),
    CreateTask(ProjectId, String),
    DeleteTag(TagId),
    DeleteProject(ProjectId),
    DeleteTask(TaskId),
    TagTask(TaskId, TagId),
}

/// What a command is, as a mathematical value.
pub enum CommandView {
    CreateTag(Seq<char>),
    CreateProject(Seq<char>),
    CreateTask(ProjectId, Seq<char>),
    DeleteTag(TagId),
    DeleteProject(ProjectId),
    DeleteTask(TaskId),
    TagTask(TaskId, TagId),
}

impl View for Command {
    type V = CommandView;

    open spec fn view(&self) -> CommandView {
        match self {
            Command::CreateTag(name) => CommandView::CreateTag(name@),
            Command::CreateProject(name) => CommandView::CreateProject(name@),
            Command::CreateTask(project, name) => CommandView::CreateTask(*project, name@),
            Command::DeleteTag(id) => CommandView::DeleteTag(*id),
            Command::DeleteProject(id) => CommandView::DeleteProject(*id),
            Command::DeleteTask(id) => CommandView::DeleteTask(*id),
            Command::TagTask(task, tag) => CommandView::TagTask(*task, *tag),
        }
    }
}

impl InputCallback {
    /// The command that confirming the text `value` gives.
    pub open spec fn spec_command(self, value: Seq<char>) -> CommandView {
        match self {
            InputCallback::NewTag => CommandView::CreateTag(value),
            InputCallback::NewProject => CommandView::CreateProject(value),
            InputCallback::NewTask(project) => CommandView::CreateTask(project, value),
        }
    }

    /// The command that confirming the text `value` gives.
    pub fn command(self, value: String) -> (command: Command)
        ensures
            command@ == self.spec_command(value@),
    {
        match self {
            InputCallback::NewTag => Command::CreateTag(value),
            InputCallback::NewProject => Command::CreateProject(value),
            InputCallback::NewTask(project) => Command::CreateTask(project, value),
        }
    }
}

impl TagSelectCallback {
    /// The command that choosing the tag `tag` gives.
    pub open spec fn spec_command(self, tag: TagId) -> CommandView {
        match self {
            TagSelectCallback::TagTask(task) => CommandView::TagTask(task, tag),
        }
    }

    /// The command that choosing the tag `tag` gives.
    pub fn command(self, tag: TagId) -> (command: Command)
        ensures
            command@ == self.spec_command(tag),
    {
        match self {
            TagSelectCallback::TagTask(task) => Command::TagTask(task, tag),
        }
    }
}

impl ConfirmCallback {
    /// The command that confirming gives.
    pub open spec fn spec_command(self) -> CommandView {
        match self {
            ConfirmCallback::DeleteTag(id) => CommandView::DeleteTag(id),
            ConfirmCallback::DeleteProject(id) => CommandView::DeleteProject(id),
            ConfirmCallback::DeleteTask(id) => CommandView::DeleteTask(id),
        }
    }

    /// The command that confirming gives.
    pub fn command(self) -> (command: Command)
        ensures
            command@ == self.spec_command(),
    {
        match self {
            ConfirmCallback::DeleteTag(id) => Command::DeleteTag(id),
            ConfirmCallback::DeleteProject(id) => Command::DeleteProject(id),
            ConfirmCallback::DeleteTask(id) => Command::DeleteTask(id),
        }
    }
}

/// A prompt that takes a line of text.
#[derive(Debug)]
pub struct InputPrompt {
    pub title: String,
    pub callback: InputCallback,
    /// The text takes a character only while it holds fewer than this many
    /// characters.
    pub limit: usize,
    /// Whether the text takes letters and digits only.
    pub alphanumeric: bool,
    pub value: String,
}

/// A prompt that offers the tags whose names start with what was typed.
#[derive(Debug)]
pub struct TagSelectPrompt {
    pub title: String,
    pub callback: TagSelectCallback,
    pub search: String,
    pub explorer: ExplorerGroup<TagId>,
}

/// A prompt that asks for a yes.
#[derive(Debug)]
pub struct ConfirmPrompt {
    /// What is about to be done, in words.
    pub action: String,
    pub callback: ConfirmCallback,
}

/// A modal prompt.
#[derive(Debug)]
pub enum Prompt {
    Input(InputPrompt),
    TagSelect(TagSelectPrompt),
    Confirm(ConfirmPrompt),
}

/// What an input prompt is, as a mathematical value.
pub struct InputView {
    pub title: Seq<char>,
    pub callback: InputCallback,
    pub limit: int,
    pub alphanumeric: bool,
    pub value: Seq<char>,
}

/// What a selection prompt is, as a mathematical value.
pub struct TagSelectView {
    pub title: Seq<char>,
    pub callback: TagSelectCallback,
    pub search: Seq<char>,
    pub explorer: ListView<TagId>,
}

/// What a confirmation prompt is, as a mathematical value.
pub struct ConfirmView {
    pub action: Seq<char>,
    pub callback: ConfirmCallback,
}

/// What a prompt is, as a mathematical value.
pub enum PromptView {
    Input(InputView),
    TagSelect(TagSelectView),
    Confirm(ConfirmView),
}

impl View for InputPrompt {
    type V = InputView;

    open spec fn view(&self) -> InputView {
        InputView {
            title: self.title@,
            callback: self.callback,
            limit: self.limit as int,
            alphanumeric: self.alphanumeric,
            value: self.value@,
        }
    }
}

impl View for TagSelectPrompt {
    type V = TagSelectView;

    open spec fn view(&self) -> TagSelectView {
        TagSelectView {
            title: self.title@,
            callback: self.callback,
            search: self.search@,
            explorer: self.explorer@,
        }
    }
}

impl View for ConfirmPrompt {
    type V = ConfirmView;

    open spec fn view(&self) -> ConfirmView {
        ConfirmView { action: self.action@, callback: self.callback }
    }
}

impl View for Prompt {
    type V = PromptView;

    open spec fn view(&self) -> PromptView {
        match self {
            Prompt::Input(input) => PromptView::Input(input@),
            Prompt::TagSelect(select) => PromptView::TagSelect(select@),
            Prompt::Confirm(confirm) => PromptView::Confirm(confirm@),
        }
    }
}

impl InputView {
    /// Whether the prompt takes the character `ch`, typed with `modifiers`:
    /// no modifier but shift, a letter or digit where only those are taken,
    /// and the text still under its limit.
    pub open spec fn takes(self, ch: char, modifiers: KeyModifiers) -> bool {
        &&& modifiers.is_plain()
        &&& !self.alphanumeric || letter_or_digit(ch)
        &&& self.value.len() < self.limit
    }

    /// The prompt after `ch` was typed with `modifiers`.
    pub open spec fn typed(self, ch: char, modifiers: KeyModifiers) -> InputView {
        if self.takes(ch, modifiers) {
            InputView { value: self.value.push(ch), ..self }
        } else {
            self
        }
    }

    /// The prompt after its last character was erased.
    pub open spec fn erased(self) -> InputView {
        if self.value.len() > 0 {
            InputView { value: self.value.drop_last(), ..self }
        } else {
            self
        }
    }
}

impl TagSelectView {
    /// `after` is this prompt with the text `search` and its list rebuilt
    /// from `store`: the tags whose names start with `search`, by name, the
    /// cursor on the tag it was on or else on the first.
    pub open spec fn refreshed(self, search: Seq<char>, store: RepositoryView, after: TagSelectView) -> bool {
        &&& after.title == self.title
        &&& after.callback == self.callback
        &&& after.search == search
        &&& after.explorer.wf()
        &&& store.lists_tags(search, after.explorer.items)
        &&& is_cursor_for(after.explorer.selected, self.explorer.selected_id(), after.explorer.items)
    }
}

impl PromptView {
    /// `after` is this prompt once a prompt above it was confirmed: a
    /// selection prompt has its list rebuilt from `store`, any other is as it
    /// was.
    pub open spec fn awakened(self, store: RepositoryView, after: PromptView) -> bool {
        match self {
            PromptView::TagSelect(select) => after matches PromptView::TagSelect(fresh)
                && select.refreshed(select.search, store, fresh),
            _ => after == self,
        }
    }
}

impl InputPrompt {
    /// A prompt titled `title` with no text yet.
    pub fn new(title: &str, limit: usize, only_ascii: bool, callback: InputCallback) -> (prompt:
        Self)
        ensures
            prompt@ == (InputView {
                title: title@,
                callback,
                limit: limit as int,
                alphanumeric: only_ascii,
                value: Seq::<char>::empty(),
            }),
    {
        Self {
            title: title.to_owned(),
            callback,
            limit,
            alphanumeric: only_ascii,
            value: String::new(),
        }
    }

    /// The prompt with `suggest` as its text.
    pub fn suggest(self, suggest: String) -> (prompt: Self)
        ensures
            prompt@ == (InputView { value: suggest@, ..self@ }),
    {
        let mut prompt = self;
        prompt.value = suggest;
        prompt
    }
}

impl InputView {
    /// How much of the room for text is taken: the number of characters of
    /// the text, a slash, and the limit.
    pub open spec fn char_count(self) -> Seq<char> {
        spec_decimal(self.value.len()) + "/"@ + spec_decimal(self.limit as nat)
    }

    /// The text takes no more characters.
    pub open spec fn is_full(self) -> bool {
        self.value.len() >= self.limit
    }
}

impl InputPrompt {
    /// How much of the room for text is taken, as the prompt shows it.
    pub fn char_count(&self) -> (shown: String)
        ensures
            shown@ == self@.char_count(),
    {
        let mut shown = decimal(self.value.as_str().unicode_len());
        shown.push('/');
        let limit = decimal(self.limit);
        shown.push_str(limit.as_str());
        proof {
            reveal_strlit("/");
            assert(shown@ =~= self@.char_count());
        }
        shown
    }

    /// Whether the text takes no more characters.
    pub fn is_full(&self) -> (full: bool)
        ensures
            full == self@.is_full(),
    {
        self.value.as_str().unicode_len() >= self.limit
    }
}

impl TagSelectPrompt {
    /// A prompt titled `title` with nothing typed and nothing listed yet.
    pub fn new(title: &str, callback: TagSelectCallback) -> (prompt: Self)
        ensures
            prompt@ == (TagSelectView {
                title: title@,
                callback,
                search: Seq::<char>::empty(),
                explorer: ListView { items: Seq::<TagId>::empty(), selected: 0 },
            }),
    {
        let prompt = Self {
            title: title.to_owned(),
            callback,
            search: String::new(),
            explorer: ExplorerGroup::default(),
        };
        proof {
            assert(prompt@.explorer.items =~= Seq::<TagId>::empty());
        }
        prompt
    }

    /// Rebuilds the list from `repository`: the tags whose names start with
    /// what was typed, by name, the cursor staying on the tag it was on.
    pub fn update(&mut self, repository: &Repository)
        ensures
            old(self)@.refreshed(old(self)@.search, repository@, final(self)@),
    {
        let entries = repository.tag_entries(self.search.as_str());
        let ghost offered = entries@;
        self.explorer.sync_and_sort(entries);
        proof {
            lemma_listing_by_name(
                self.explorer@.items,
                offered,
                repository@.matching_tags(self.search@),
                repository@.tag_names(),
            );
        }
    }
}

impl ConfirmPrompt {
    /// A prompt that asks whether to go on with `action`.
    pub fn new(action: &str, callback: ConfirmCallback) -> (prompt: Self)
        ensures
            prompt@ == (ConfirmView { action: action@, callback }),
    {
        Self { action: action.to_owned(), callback }
    }
}

impl Prompt {
    /// The input prompt with `suggest` as its text.
    pub fn suggest(self, suggest: String) -> (prompt: Self)
        requires
            self is Input,
        ensures
            self@ matches PromptView::Input(input) && prompt@ == PromptView::Input(
                InputView { value: suggest@, ..input },
            ),
    {
        match self {
            Prompt::Input(input) => Prompt::Input(input.suggest(suggest)),
            other => other,
        }
    }

    /// Brings the prompt up to date with `repository` after a prompt above
    /// it was confirmed.
    pub fn awake(&mut self, repository: &Repository)
        ensures
            old(self)@.awakened(repository@, final(self)@),
    {
        match self {
            Prompt::TagSelect(select) => select.update(repository),
            _ => {},
        }
    }
}

/// What the caller of `handle_event` has to do next.
#[derive(Debug)]
pub enum Reaction {
    /// Wait for the next event.
    Continue,
    /// Leave.
    Quit,
    /// Have the storage carry out the command of the prompt that was just
    /// confirmed, then report with `App::complete`.
    Run(Command),
}

/// What a reaction is, as a mathematical value.
pub enum ReactionView {
    Continue,
    Quit,
    Run(CommandView),
}

impl View for Reaction {
    type V = ReactionView;

    open spec fn view(&self) -> ReactionView {
        match self {
            Reaction::Continue => ReactionView::Continue,
            Reaction::Quit => ReactionView::Quit,
            Reaction::Run(command) => ReactionView::Run(command@),
        }
    }
}

/// The title of the prompt that chooses a tag for a task.
pub open spec fn tag_task_title() -> Seq<char> {
    "Add tag to task"@
}

/// The text `search` without its last character.
pub open spec fn shortened(search: Seq<char>) -> Seq<char> {
    if search.len() > 0 {
        search.drop_last()
    } else {
        search
    }
}

impl TagSelectView {
    /// The prompt with the cursor a line up.
    pub open spec fn moved_up(self) -> TagSelectView {
        TagSelectView { explorer: self.explorer.previous(), ..self }
    }

    /// The prompt with the cursor a line down.
    pub open spec fn moved_down(self) -> TagSelectView {
        TagSelectView { explorer: self.explorer.next(), ..self }
    }
}

impl AppView {
    /// The application with `top` in place of its top prompt.
    pub open spec fn retop(self, top: PromptView) -> AppView {
        self.close().show(top)
    }

    /// `after` is this application with a selection prompt in place of its
    /// top prompt `select`: the one with the text `search` and the list
    /// rebuilt from the store.
    pub open spec fn researched(self, select: TagSelectView, search: Seq<char>, after: AppView) -> bool {
        &&& after.prompts.len() > 0
        &&& after == self.retop(after.prompts.last())
        &&& after.prompts.last() matches PromptView::TagSelect(fresh) && select.refreshed(
            search,
            self.repository,
            fresh,
        )
    }

    /// How an open input prompt `input` takes the key `key`: Esc closes it,
    /// Enter closes it and runs its command if there is text, a character
    /// is added where the prompt takes it, Backspace erases one.
    pub open spec fn input_handled(
        self,
        input: InputView,
        key: KeyEvent,
        after: AppView,
        reaction: ReactionView,
    ) -> bool {
        match key.code {
            KeyCode::Esc => after == self.close() && reaction is Continue,
            KeyCode::Enter => if input.value.len() > 0 {
                after == self.close() && reaction == ReactionView::Run(
                    input.callback.spec_command(input.value),
                )
            } else {
                after == self && reaction is Continue
            },
            KeyCode::Char(ch) => after == self.retop(
                PromptView::Input(input.typed(ch, key.modifiers)),
            ) && reaction is Continue,
            KeyCode::Backspace => after == self.retop(PromptView::Input(input.erased()))
                && reaction is Continue,
            _ => after == self && reaction is Continue,
        }
    }

    /// How an open selection prompt `select` takes the character `ch`: typed
    /// plainly, a letter or digit extends the search; with control, `k` and
    /// `j` move the cursor, `n` opens the prompt for a new tag with the
    /// search as its text, `d` asks whether to delete the tag under the
    /// cursor.
    pub open spec fn select_typed(
        self,
        select: TagSelectView,
        ch: char,
        modifiers: KeyModifiers,
        after: AppView,
    ) -> bool {
        if modifiers.is_plain() {
            if letter_or_digit(ch) {
                self.researched(select, select.search.push(ch), after)
            } else {
                after == self
            }
        } else if modifiers.has_control() {
            if ch == 'k' {
                after == self.retop(PromptView::TagSelect(select.moved_up()))
            } else if ch == 'j' {
                after == self.retop(PromptView::TagSelect(select.moved_down()))
            } else if ch == 'n' {
                after == self.show(
                    PromptView::Input(
                        InputView {
                            title: "New Tag"@,
                            callback: InputCallback::NewTag,
                            limit: TAG_NAME_LIMIT as int,
                            alphanumeric: true,
                            value: select.search,
                        },
                    ),
                )
            } else if ch == 'd' {
                match select.explorer.selected_id() {
                    Some(tag) => after == self.show(
                        confirmation("deleting selected tag"@, ConfirmCallback::DeleteTag(tag)),
                    ),
                    None => after == self,
                }
            } else {
                after == self
            }
        } else {
            after == self
        }
    }

    /// How an open selection prompt `select` takes the key `key`: Esc closes
    /// it, Enter closes it and runs its command on the tag under the cursor,
    /// Up and Down move the cursor, Backspace shortens the search.
    pub open spec fn select_handled(
        self,
        select: TagSelectView,
        key: KeyEvent,
        after: AppView,
        reaction: ReactionView,
    ) -> bool {
        match key.code {
            KeyCode::Esc => after == self.close() && reaction is Continue,
            KeyCode::Enter => match select.explorer.selected_id() {
                Some(tag) => after == self.close() && reaction == ReactionView::Run(
                    select.callback.spec_command(tag),
                ),
                None => after == self && reaction is Continue,
            },
            KeyCode::Up => after == self.retop(PromptView::TagSelect(select.moved_up()))
                && reaction is Continue,
            KeyCode::Down => after == self.retop(PromptView::TagSelect(select.moved_down()))
                && reaction is Continue,
            KeyCode::Char(ch) => self.select_typed(select, ch, key.modifiers, after)
                && reaction is Continue,
            KeyCode::Backspace => self.researched(select, shortened(select.search), after)
                && reaction is Continue,
            _ => after == self && reaction is Continue,
        }
    }

    /// How an open confirmation prompt `confirm` takes the key `key`: Esc
    /// closes it, Enter closes it and runs its command.
    pub open spec fn confirm_handled(
        self,
        confirm: ConfirmView,
        key: KeyEvent,
        after: AppView,
        reaction: ReactionView,
    ) -> bool {
        match key.code {
            KeyCode::Esc => after == self.close() && reaction is Continue,
            KeyCode::Enter => after == self.close() && reaction == ReactionView::Run(
                confirm.callback.spec_command(),
            ),
            _ => after == self && reaction is Continue,
        }
    }

    /// `after` is this application with the cursor of the project list as
    /// in `projects` and the task list rebuilt for the project under it.
    pub open spec fn project_moved(self, projects: ListView<ProjectId>, after: AppView) -> bool {
        &&& after.settings == self.settings
        &&& after.focus == self.focus
        &&& after.prompts == self.prompts
        &&& after.repository == self.repository
        &&& after.explorer.projects == projects
        &&& after.explorer.collapsed == self.explorer.collapsed
        &&& after.explorer.recascaded(after.repository)
    }

    /// Whether `key` moves a cursor up.
    pub open spec fn is_up(key: KeyEvent) -> bool {
        key.code == KeyCode::Up || key.code == KeyCode::Char('k')
    }

    /// Whether `key` moves a cursor down.
    pub open spec fn is_down(key: KeyEvent) -> bool {
        key.code == KeyCode::Down || key.code == KeyCode::Char('j')
    }

    /// How the project list takes the key `key`: Up, Down, `k` and `j` move
    /// the cursor, `N` asks for a new project, `D` asks whether to delete
    /// the project under the cursor.
    pub open spec fn project_key_handled(self, key: KeyEvent, after: AppView) -> bool {
        if Self::is_up(key) {
            self.project_moved(self.explorer.projects.previous(), after)
        } else if Self::is_down(key) {
            self.project_moved(self.explorer.projects.next(), after)
        } else if key.code == KeyCode::Char('N') {
            after == self.show(
                empty_input("New Project"@, PROJECT_NAME_LIMIT, false, InputCallback::NewProject),
            )
        } else if key.code == KeyCode::Char('D') {
            match self.explorer.projects.selected_id() {
                Some(project) => after == self.show(
                    confirmation(
                        "deleting selected project"@,
                        ConfirmCallback::DeleteProject(project),
                    ),
                ),
                None => after == self,
            }
        } else {
            after == self
        }
    }

    /// The application with `tasks` as its task list.
    pub open spec fn with_tasks(self, tasks: ListView<TaskId>) -> AppView {
        AppView { explorer: ExplorerView { tasks: Some(tasks), ..self.explorer }, ..self }
    }

    /// `after` is this application with the prompt opened that chooses a tag
    /// for `task`: nothing typed, all tags listed by name, the cursor on the
    /// first.
    pub open spec fn tag_select_opened(self, task: TaskId, after: AppView) -> bool {
        &&& after.prompts.len() > 0
        &&& after == self.show(after.prompts.last())
        &&& after.prompts.last() matches PromptView::TagSelect(fresh) && (TagSelectView {
            title: tag_task_title(),
            callback: TagSelectCallback::TagTask(task),
            search: Seq::<char>::empty(),
            explorer: ListView { items: Seq::<TagId>::empty(), selected: 0 },
        }).refreshed(Seq::<char>::empty(), self.repository, fresh)
    }

    /// How the task list of the project `project` takes the key `key`: Up,
    /// Down, `k` and `j` move the cursor, `N` asks for a new task, `D` asks
    /// whether to delete the task under the cursor, `t` offers the tags for
    /// it.
    pub open spec fn task_key_handled(
        self,
        project: ProjectId,
        tasks: ListView<TaskId>,
        key: KeyEvent,
        after: AppView,
    ) -> bool {
        if Self::is_up(key) {
            after == self.with_tasks(tasks.previous())
        } else if Self::is_down(key) {
            after == self.with_tasks(tasks.next())
        } else if key.code == KeyCode::Char('N') {
            after == self.show(
                empty_input("New Task"@, TASK_NAME_LIMIT, false, InputCallback::NewTask(project)),
            )
        } else if key.code == KeyCode::Char('D') {
            match tasks.selected_id() {
                Some(task) => after == self.show(
                    confirmation("deleting selected task"@, ConfirmCallback::DeleteTask(task)),
                ),
                None => after == self,
            }
        } else if key.code == KeyCode::Char('t') {
            match tasks.selected_id() {
                Some(task) => self.tag_select_opened(task, after),
                None => after == self,
            }
        } else {
            after == self
        }
    }

    /// How the main pane takes the key `key`: as the task list of the
    /// project under the cursor does, and not at all without such a project.
    pub open spec fn main_key_handled(self, key: KeyEvent, after: AppView) -> bool {
        match (self.explorer.projects.selected_id(), self.explorer.tasks) {
            (Some(project), Some(tasks)) => self.task_key_handled(project, tasks, key, after),
            _ => after == self,
        }
    }

    /// How the application takes the key `key` while no prompt is open: Esc
    /// unfolds the project list from the main pane and quits from the
    /// project list, Enter folds the project list away, `q` quits, `<` and
    /// `>` fold and unfold, `?` does nothing, and any other key goes to the
    /// pane in focus.
    pub open spec fn idle_handled(self, key: KeyEvent, after: AppView, reaction: ReactionView) -> bool {
        match key.code {
            KeyCode::Esc => if self.focus == Pane::Main {
                after == self.folded(false) && reaction is Continue
            } else {
                after == self && reaction is Quit
            },
            KeyCode::Enter => reaction is Continue && if self.focus == Pane::ProjectExplorer {
                after == self.folded(true)
            } else {
                after == self
            },
            KeyCode::Char(ch) if ch == 'q' => after == self && reaction is Quit,
            KeyCode::Char(ch) if ch == '?' => after == self && reaction is Continue,
            KeyCode::Char(ch) if ch == '<' => after == self.folded(true) && reaction is Continue,
            KeyCode::Char(ch) if ch == '>' => after == self.folded(false) && reaction is Continue,
            _ => reaction is Continue && match self.focus {
                Pane::ProjectExplorer => self.project_key_handled(key, after),
                Pane::Main => self.main_key_handled(key, after),
            },
        }
    }

    /// How the application takes `event`: a key goes to the top prompt
    /// while one is open and to the panes otherwise; anything else changes
    /// nothing.
    pub open spec fn handled(self, event: Event, after: AppView, reaction: ReactionView) -> bool {
        match event {
            Event::Other => after == self && reaction is Continue,
            Event::Key(key) => if self.prompts.len() > 0 {
                match self.prompts.last() {
                    PromptView::Input(input) => self.input_handled(input, key, after, reaction),
                    PromptView::TagSelect(select) => self.select_handled(
                        select,
                        key,
                        after,
                        reaction,
                    ),
                    PromptView::Confirm(confirm) => self.confirm_handled(
                        confirm,
                        key,
                        after,
                        reaction,
                    ),
                }
            } else {
                self.idle_handled(key, after, reaction)
            },
        }
    }
}

/// The cascade holds after every event: when the lists showed the store
/// before, then whichever project the cursor of the project list ends on,
/// the task list holds the stored tasks that this project lists, by name,
/// and there is no task list when the cursor is on no project.
pub proof fn lemma_event_keeps_cascade(
    before: AppView,
    event: Event,
    after: AppView,
    reaction: ReactionView,
)
    requires
        before.wf(),
        before.handled(event, after, reaction),
    ensures
        after.wf(),
        after.explorer.cascaded(after.repository),
{
}

/// The cascade holds after every outcome: once it is taken in, the project
/// list shows the stored projects, and the task list holds the stored tasks
/// that the project under the cursor lists, by name.
pub proof fn lemma_outcome_keeps_cascade(before: AppView, outcome: OutcomeView, after: AppView)
    requires
        before.wf(),
        before.completed(outcome, after),
    ensures
        after.wf(),
        after.explorer.cascaded(after.repository),
{
}

impl AppView {
    /// The application with `prompts` opened one after the other.
    pub open spec fn show_all(self, prompts: Seq<PromptView>) -> AppView
        decreases prompts.len(),
    {
        if prompts.len() == 0 {
            self
        } else {
            self.show_all(prompts.drop_last()).show(prompts.last())
        }
    }
}

/// Opening prompts stacks them in order on the open ones and changes
/// nothing else.
pub proof fn lemma_show_all(app: AppView, prompts: Seq<PromptView>)
    ensures
        app.show_all(prompts) == (AppView { prompts: app.prompts + prompts, ..app }),
    decreases prompts.len(),
{
    if prompts.len() == 0 {
        assert(app.prompts + prompts =~= app.prompts);
    } else {
        lemma_show_all(app, prompts.drop_last());
        assert((app.prompts + prompts.drop_last()).push(prompts.last()) =~= app.prompts + prompts);
    }
}

/// Cancelling undoes opening: after any number of prompts were opened from
/// the idle state and Esc was pressed once for each, whatever modifiers were
/// held, the application is as it was before the first was opened, and no
/// press has run a command.
pub proof fn lemma_cancel_all(
    idle: AppView,
    prompts: Seq<PromptView>,
    keys: Seq<KeyEvent>,
    trace: Seq<AppView>,
    reactions: Seq<ReactionView>,
)
    requires
        idle.is_idle(),
        keys.len() == prompts.len(),
        reactions.len() == prompts.len(),
        trace.len() == prompts.len() + 1,
        trace[0] == idle.show_all(prompts),
        forall|i: int| 0 <= i < keys.len() ==> (#[trigger] keys[i]).code == KeyCode::Esc,
        forall|i: int|
            0 <= i < keys.len() ==> (#[trigger] trace[i]).handled(
                Event::Key(keys[i]),
                trace[i + 1],
                reactions[i],
            ),
    ensures
        trace.last() == idle,
        forall|i: int| 0 <= i < reactions.len() ==> #[trigger] reactions[i] is Continue,
    decreases prompts.len(),
{
    lemma_show_all(idle, prompts);
    assert(idle.prompts + prompts =~= prompts);
    if prompts.len() > 0 {
        let first = trace[0];
        assert(first.handled(Event::Key(keys[0]), trace[1], reactions[0]));
        assert(first.prompts == prompts);
        assert(trace[1] == first.close());
        let fewer = prompts.drop_last();
        lemma_show_all(idle, fewer);
        assert(idle.prompts + fewer =~= fewer);
        assert(trace[1] == idle.show_all(fewer));
        let rest_keys = keys.drop_first();
        let rest_trace = trace.drop_first();
        let rest_reactions = reactions.drop_first();
        assert forall|i: int| 0 <= i < rest_keys.len() implies (#[trigger] rest_trace[i]).handled(
            Event::Key(rest_keys[i]),
            rest_trace[i + 1],
            rest_reactions[i],
        ) by {
            assert(trace[i + 1].handled(Event::Key(keys[i + 1]), trace[i + 2], reactions[i + 1]));
        }
        assert forall|i: int| 0 <= i < rest_keys.len() implies (#[trigger] rest_keys[i]).code
            == KeyCode::Esc by {
            assert(keys[i + 1].code == KeyCode::Esc);
        }
        lemma_cancel_all(idle, fewer, rest_keys, rest_trace, rest_reactions);
        assert(trace.last() == rest_trace.last());
        assert forall|i: int| 0 <= i < reactions.len() implies #[trigger] reactions[i]
            is Continue by {
            if i > 0 {
                assert(rest_reactions[i - 1] is Continue);
            }
        }
    }
}

/// A prompt confirmed on top of a selection prompt shows in the selection:
/// when Enter on the top prompt hands out a command, it hands out that one
/// and closes the prompt; when an outcome is then reported, the store
/// changes by what the outcome says and no more, and the selection prompt,
/// on top again and with its search as it was, lists exactly the stored
/// tags that match its search, by name, the cursor on the tag it was on
/// while that tag is among them, and else on the first; Enter then hands out
/// the selection's command for the tag under the cursor of that list, once,
/// and changes nothing in the store.
pub proof fn lemma_nested_commit(
    start: AppView,
    select: TagSelectView,
    enter: KeyEvent,
    closed: AppView,
    first: ReactionView,
    outcome: OutcomeView,
    reported: AppView,
    done: AppView,
    second: ReactionView,
)
    requires
        start.prompts.len() >= 2,
        start.prompts[start.prompts.len() - 2] == PromptView::TagSelect(select),
        enter.code == KeyCode::Enter,
        start.handled(Event::Key(enter), closed, first),
        first is Run,
        closed.completed(outcome, reported),
        reported.handled(Event::Key(enter), done, second),
    ensures
        closed == start.close(),
        closed.repository == start.repository,
        reported.repository == match outcome.mutation() {
            Some(change) => start.repository.apply(change),
            None => start.repository,
        },
        reported.prompts.len() == start.prompts.len() - 1,
        reported.prompts.last() matches PromptView::TagSelect(fresh) && {
            &&& fresh.search == select.search
            &&& fresh.callback == select.callback
            &&& fresh.title == select.title
            &&& reported.repository.lists_tags(select.search, fresh.explorer.items)
            &&& match select.explorer.selected_id() {
                Some(held) if reported.repository.matching_tags(select.search).contains(held) =>
                    fresh.explorer.selected_id() == Some(held),
                _ => fresh.explorer.selected == 0,
            }
            &&& match fresh.explorer.selected_id() {
                Some(chosen) => second == ReactionView::Run(select.callback.spec_command(chosen))
                    && done == reported.close(),
                None => second is Continue && done == reported,
            }
        },
        done.repository == reported.repository,
{
    assert(closed == start.close());
    assert(closed.prompts.last() == PromptView::TagSelect(select));
    let fresh = reported.prompts.last()->TagSelect_0;
    assert(select.refreshed(select.search, reported.repository, fresh));
}

/// A tag made from a selection prompt shows in the selection: with the
/// prompt for a new tag open on top of a selection prompt, Enter on a text
/// that is not empty hands out the command to create a tag of that name,
/// once; when the created tag is reported, the store holds it, and the
/// selection prompt, on top again and with its search as it was, lists
/// exactly the stored tags that match its search, by name, the new one
/// among them exactly if it matches; Enter then hands out the selection's
/// command for the tag under the cursor of that list, and changes nothing in
/// the store. Where the selection listed the matching tags of the store
/// before and the new tag's identifier was not in use, the cursor is still
/// on the tag it was on.
pub proof fn lemma_nested_new_tag(
    start: AppView,
    select: TagSelectView,
    input: InputView,
    enter: KeyEvent,
    closed: AppView,
    first: ReactionView,
    tag: TagView,
    reported: AppView,
    done: AppView,
    second: ReactionView,
)
    requires
        start.prompts.len() >= 2,
        start.prompts[start.prompts.len() - 2] == PromptView::TagSelect(select),
        start.prompts.last() == PromptView::Input(input),
        input.callback == InputCallback::NewTag,
        input.value.len() > 0,
        enter.code == KeyCode::Enter,
        start.handled(Event::Key(enter), closed, first),
        tag.name == input.value,
        closed.completed(OutcomeView::TagCreated(tag), reported),
        reported.handled(Event::Key(enter), done, second),
    ensures
        first == ReactionView::Run(CommandView::CreateTag(input.value)),
        reported.repository == start.repository.add_tag(tag),
        reported.prompts.len() == start.prompts.len() - 1,
        reported.prompts.last() matches PromptView::TagSelect(fresh) && {
            &&& fresh.search == select.search
            &&& fresh.callback == select.callback
            &&& reported.repository.lists_tags(select.search, fresh.explorer.items)
            &&& name_starts_with(tag.name, select.search) <==> fresh.explorer.items.contains(tag.id)
            &&& match fresh.explorer.selected_id() {
                Some(chosen) => second == ReactionView::Run(select.callback.spec_command(chosen))
                    && done == reported.close(),
                None => second is Continue && done == reported,
            }
            &&& start.repository.lists_tags(select.search, select.explorer.items)
                && !start.repository.tags.contains_key(tag.id) ==> (
            select.explorer.selected_id() matches Some(held) ==> fresh.explorer.selected_id()
                == Some(held))
        },
        done.repository == reported.repository,
{
    assert(closed == start.close());
    assert(closed.prompts.last() == PromptView::TagSelect(select));
    let fresh = reported.prompts.last()->TagSelect_0;
    assert(select.refreshed(select.search, reported.repository, fresh));
    assert(reported.repository.matching_tags(select.search).contains(tag.id) <==> name_starts_with(
        tag.name,
        select.search,
    ));
    if start.repository.lists_tags(select.search, select.explorer.items)
        && !start.repository.tags.contains_key(tag.id) {
        if select.explorer.selected_id() is Some {
            let held = select.explorer.selected_id()->0;
            assert(select.explorer.items.contains(select.explorer.items[select.explorer.selected]));
            assert(start.repository.matching_tags(select.search).contains(held));
            assert(reported.repository.matching_tags(select.search).contains(held));
        }
    }
}

/// Hands a key to the input prompt `input`, which was the top prompt of
/// `app` and has been taken off the stack.
fn handle_input_key(app: &mut App, input: InputPrompt, key: KeyEvent) -> (reaction: Reaction)
    ensures
        old(app)@.show(PromptView::Input(input@)).input_handled(
            input@,
            key,
            final(app)@,
            reaction@,
        ),
        final(app)@.repository == old(app)@.repository,
{
    proof {
        assert(app@.show(PromptView::Input(input@)).prompts.drop_last() =~= app@.prompts);
    }
    let mut input = input;
    match key.code {
        KeyCode::Esc => Reaction::Continue,
        KeyCode::Enter => {
            if !input.value.as_str().is_empty() {
                let callback = input.callback;
                Reaction::Run(callback.command(input.value))
            } else {
                app.show_prompt(Prompt::Input(input));
                Reaction::Continue
            }
        },
        KeyCode::Char(ch) => {
            if key.modifiers.difference(KeyModifiers(SHIFT)).is_empty() && (!input.alphanumeric
                || ch.is_alphanumeric()) {
                if input.value.as_str().unicode_len() < input.limit {
                    input.value.push(ch);
                }
            }
            app.show_prompt(Prompt::Input(input));
            Reaction::Continue
        },
        KeyCode::Backspace => {
            input.value.pop();
            app.show_prompt(Prompt::Input(input));
            Reaction::Continue
        },
        _ => {
            app.show_prompt(Prompt::Input(input));
            Reaction::Continue
        },
    }
}

/// Hands a key to the selection prompt `select`, which was the top prompt
/// of `app` and has been taken off the stack.
fn handle_select_key(app: &mut App, select: TagSelectPrompt, key: KeyEvent) -> (reaction:
    Reaction)
    ensures
        old(app)@.show(PromptView::TagSelect(select@)).select_handled(
            select@,
            key,
            final(app)@,
            reaction@,
        ),
        final(app)@.repository == old(app)@.repository,
{
    proof {
        assert(app@.show(PromptView::TagSelect(select@)).prompts.drop_last() =~= app@.prompts);
    }
    let mut select = select;
    match key.code {
        KeyCode::Esc => Reaction::Continue,
        KeyCode::Enter => {
            let chosen = match select.explorer.selected_raw() {
                Some(tag) => Some(*tag),
                None => None,
            };
            match chosen {
                Some(tag) => {
                    let callback = select.callback;
                    Reaction::Run(callback.command(tag))
                },
                None => {
                    app.show_prompt(Prompt::TagSelect(select));
                    Reaction::Continue
                },
            }
        },
        KeyCode::Up => {
            select.explorer.previous();
            app.show_prompt(Prompt::TagSelect(select));
            Reaction::Continue
        },
        KeyCode::Down => {
            select.explorer.next();
            app.show_prompt(Prompt::TagSelect(select));
            Reaction::Continue
        },
        KeyCode::Char(ch) => {
            if key.modifiers.difference(KeyModifiers(SHIFT)).is_empty() {
                if ch.is_alphanumeric() {
                    select.search.push(ch);
                    select.update(&app.repository);
                }
                app.show_prompt(Prompt::TagSelect(select));
            } else if key.modifiers.contains(KeyModifiers(CONTROL)) {
                if ch == 'k' {
                    select.explorer.previous();
                    app.show_prompt(Prompt::TagSelect(select));
                } else if ch == 'j' {
                    select.explorer.next();
                    app.show_prompt(Prompt::TagSelect(select));
                } else if ch == 'n' {
                    let suggest = select.search.clone();
                    app.show_prompt(Prompt::TagSelect(select));
                    app.show_prompt(prompts::new_tag().suggest(suggest));
                } else if ch == 'd' {
                    let chosen = match select.explorer.selected_raw() {
                        Some(tag) => Some(*tag),
                        None => None,
                    };
                    app.show_prompt(Prompt::TagSelect(select));
                    if let Some(tag) = chosen {
                        app.show_prompt(prompts::delete_tag(tag));
                    }
                } else {
                    app.show_prompt(Prompt::TagSelect(select));
                }
            } else {
                app.show_prompt(Prompt::TagSelect(select));
            }
            Reaction::Continue
        },
        KeyCode::Backspace => {
            select.search.pop();
            select.update(&app.repository);
            app.show_prompt(Prompt::TagSelect(select));
            Reaction::Continue
        },
        _ => {
            app.show_prompt(Prompt::TagSelect(select));
            Reaction::Continue
        },
    }
}

/// Hands a key to the confirmation prompt `confirm`, which was the top
/// prompt of `app` and has been taken off the stack.
fn handle_confirm_key(app: &mut App, confirm: ConfirmPrompt, key: KeyEvent) -> (reaction:
    Reaction)
    ensures
        old(app)@.show(PromptView::Confirm(confirm@)).confirm_handled(
            confirm@,
            key,
            final(app)@,
            reaction@,
        ),
        final(app)@.repository == old(app)@.repository,
{
    proof {
        assert(app@.show(PromptView::Confirm(confirm@)).prompts.drop_last() =~= app@.prompts);
    }
    match key.code {
        KeyCode::Esc => Reaction::Continue,
        KeyCode::Enter => {
            let callback = confirm.callback;
            Reaction::Run(callback.command())
        },
        _ => {
            app.show_prompt(Prompt::Confirm(confirm));
            Reaction::Continue
        },
    }
}

/// Whether `key` moves a cursor up.
fn is_up(key: KeyEvent) -> (up: bool)
    ensures
        up == AppView::is_up(key),
{
    match key.code {
        KeyCode::Up => true,
        KeyCode::Char(ch) => ch == 'k',
        _ => false,
    }
}

/// Whether `key` moves a cursor down.
fn is_down(key: KeyEvent) -> (down: bool)
    ensures
        down == AppView::is_down(key),
{
    match key.code {
        KeyCode::Down => true,
        KeyCode::Char(ch) => ch == 'j',
        _ => false,
    }
}

/// Whether `key` is the character `ch`, with any modifiers.
fn is_char(key: KeyEvent, ch: char) -> (is: bool)
    ensures
        is == (key.code == KeyCode::Char(ch)),
{
    match key.code {
        KeyCode::Char(typed) => typed == ch,
        _ => false,
    }
}

/// Rebuilds the task list after the cursor of the project list has moved.
/// Where the project under the cursor is not in the store, the lists were
/// out of step with it before, and the task list is left as it is.
fn cascade(app: &mut App)
    ensures
        final(app)@.settings == old(app)@.settings,
        final(app)@.focus == old(app)@.focus,
        final(app)@.prompts == old(app)@.prompts,
        final(app)@.repository == old(app)@.repository,
        final(app)@.explorer.projects == old(app)@.explorer.projects,
        final(app)@.explorer.collapsed == old(app)@.explorer.collapsed,
        old(app)@.repository.lists_projects(old(app)@.explorer.projects.items)
            ==> final(app)@.explorer.recascaded(final(app)@.repository),
{
    let stored = match app.state.explorer.projects.selected_raw() {
        Some(project) => app.repository.project(project).is_some(),
        None => true,
    };
    proof {
        let list = app.state.explorer@.projects;
        if list.selected_id() is Some {
            assert(list.items.contains(list.items[list.selected]));
        }
    }
    if stored {
        app.state.explorer.project_changed(&app.repository);
    }
}

/// Hands a key to the project list.
fn handle_project_explorer_key(key: KeyEvent, app: &mut App)
    ensures
        old(app)@.wf() ==> old(app)@.project_key_handled(key, final(app)@) && final(app)@.wf(),
        final(app)@.repository == old(app)@.repository,
{
    if is_up(key) {
        app.state.explorer.projects.previous();
        cascade(app);
    } else if is_down(key) {
        app.state.explorer.projects.next();
        cascade(app);
    } else if is_char(key, 'N') {
        app.show_prompt(prompts::new_project());
    } else if is_char(key, 'D') {
        let chosen = match app.state.explorer.projects.selected_raw() {
            Some(project) => Some(*project),
            None => None,
        };
        if let Some(project) = chosen {
            app.show_prompt(prompts::delete_project(project));
        }
    }
}

/// The task under the cursor of the task list, if there is one.
fn selected_task(app: &App) -> (chosen: Option<TaskId>)
    ensures
        chosen == match app@.explorer.tasks {
            Some(tasks) => tasks.selected_id(),
            None => None,
        },
{
    match &app.state.explorer.tasks {
        Some(tasks) => match tasks.selected_raw() {
            Some(task) => Some(*task),
            None => None,
        },
        None => None,
    }
}

/// Hands a key to the main pane.
fn handle_main_key(key: KeyEvent, app: &mut App)
    ensures
        old(app)@.wf() ==> old(app)@.main_key_handled(key, final(app)@) && final(app)@.wf(),
        final(app)@.repository == old(app)@.repository,
{
    let chosen = match app.state.explorer.projects.selected_raw() {
        Some(project) => Some(*project),
        None => None,
    };
    if let Some(project) = chosen {
        if is_up(key) {
            match &mut app.state.explorer.tasks {
                Some(tasks) => tasks.previous(),
                None => {},
            }
        } else if is_down(key) {
            match &mut app.state.explorer.tasks {
                Some(tasks) => tasks.next(),
                None => {},
            }
        } else if is_char(key, 'N') {
            app.show_prompt(prompts::new_task(project));
        } else if is_char(key, 'D') {
            if let Some(task) = selected_task(app) {
                app.show_prompt(prompts::delete_task(task));
            }
        } else if is_char(key, 't') {
            if let Some(task) = selected_task(app) {
                let mut prompt = TagSelectPrompt::new(
                    "Add tag to task",
                    TagSelectCallback::TagTask(task),
                );
                prompt.update(&app.repository);
                app.show_prompt(Prompt::TagSelect(prompt));
            }
        }
    }
}

/// Hands a key to the panes, while no prompt is open.
fn handle_idle_key(app: &mut App, key: KeyEvent) -> (reaction: Reaction)
    ensures
        old(app)@.wf() ==> old(app)@.idle_handled(key, final(app)@, reaction@) && final(app)@.wf(),
        final(app)@.repository == old(app)@.repository,
{
    match key.code {
        KeyCode::Esc => {
            match app.state.focus {
                Pane::Main => {
                    app.state.explorer.collapsed = false;
                    app.update_focus();
                    Reaction::Continue
                },
                Pane::ProjectExplorer => Reaction::Quit,
            }
        },
        KeyCode::Enter => {
            match app.state.focus {
                Pane::ProjectExplorer => {
                    app.state.explorer.collapsed = true;
                    app.update_focus();
                },
                Pane::Main => {},
            }
            Reaction::Continue
        },
        _ => {
            if is_char(key, 'q') {
                Reaction::Quit
            } else if is_char(key, '?') {
                Reaction::Continue
            } else if is_char(key, '<') {
                app.state.explorer.collapsed = true;
                app.update_focus();
                Reaction::Continue
            } else if is_char(key, '>') {
                app.state.explorer.collapsed = false;
                app.update_focus();
                Reaction::Continue
            } else {
                match app.state.focus {
                    Pane::ProjectExplorer => handle_project_explorer_key(key, app),
                    Pane::Main => handle_main_key(key, app),
                }
                Reaction::Continue
            }
        },
    }
}

/// Takes one event: a key goes to the top prompt while one is open and to
/// the pane in focus otherwise. Confirming a prompt closes it and hands out
/// its command; the store changes only when the outcome of that command is
/// reported with `App::complete`.
///
/// The lists of an application show its store from `App::new` on, and stay
/// so under every function of this crate that takes the application.
pub fn handle_event(app: &mut App, event: Event) -> (reaction: Reaction)
    ensures
        old(app)@.wf() ==> old(app)@.handled(event, final(app)@, reaction@) && final(app)@.wf(),
        final(app)@.repository == old(app)@.repository,
{
    match event {
        Event::Other => Reaction::Continue,
        Event::Key(key) => {
            let ghost before = app@;
            let top = app.close_prompt();
            proof {
                if before.prompts.len() > 0 {
                    assert(before.prompts.drop_last().push(before.prompts.last())
                        =~= before.prompts);
                }
            }
            match top {
                Some(Prompt::Input(input)) => handle_input_key(app, input, key),
                Some(Prompt::TagSelect(select)) => handle_select_key(app, select, key),
                Some(Prompt::Confirm(confirm)) => handle_confirm_key(app, confirm, key),
                None => handle_idle_key(app, key),
            }
        },
    }
}

} // verus!
