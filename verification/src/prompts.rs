//! The prompts that the key bindings open.

use vstd::prelude::*;

use crate::input::{
    ConfirmCallback, ConfirmPrompt, ConfirmView, InputCallback, InputPrompt, InputView, Prompt,
    PromptView,
};
use crate::model::{ProjectId, TagId, TaskId};

verus! {

/// The longest name of a tag, in characters.
pub const TAG_NAME_LIMIT: usize = 15;

/// The longest name of a project, in characters.
pub const PROJECT_NAME_LIMIT: usize = 20;

/// The longest name of a task, in characters.
pub const TASK_NAME_LIMIT: usize = 150;

/// What an empty input prompt is that is titled `title` and made for
/// `callback`.
pub open spec fn empty_input(
    title: Seq<char>,
    limit: usize,
    alphanumeric: bool,
    callback: InputCallback,
) -> PromptView {
    PromptView::Input(
        InputView { title, callback, limit: limit as int, alphanumeric, value: Seq::<char>::empty() },
    )
}

/// What a confirmation prompt is that names `action` and is made for
/// `callback`.
pub open spec fn confirmation(action: Seq<char>, callback: ConfirmCallback) -> PromptView {
    PromptView::Confirm(ConfirmView { action, callback })
}

/// The prompt that asks for the name of a new tag: letters and digits only.
pub fn new_tag() -> (prompt: Prompt)
    ensures
        prompt@ == empty_input("New Tag"@, TAG_NAME_LIMIT, true, InputCallback::NewTag),
{
    Prompt::Input(InputPrompt::new("New Tag", TAG_NAME_LIMIT, true, InputCallback::NewTag))
}

/// The prompt that asks whether to delete the tag `tag_id`.
pub fn delete_tag(tag_id: TagId) -> (prompt: Prompt)
    ensures
        prompt@ == confirmation("deleting selected tag"@, ConfirmCallback::DeleteTag(tag_id)),
{
    Prompt::Confirm(ConfirmPrompt::new("deleting selected tag", ConfirmCallback::DeleteTag(tag_id)))
}

/// The prompt that asks for the name of a new project.
pub fn new_project() -> (prompt: Prompt)
    ensures
        prompt@ == empty_input(
            "New Project"@,
            PROJECT_NAME_LIMIT,
            false,
            InputCallback::NewProject,
        ),
{
    Prompt::Input(
        InputPrompt::new("New Project", PROJECT_NAME_LIMIT, false, InputCallback::NewProject),
    )
}

/// The prompt that asks whether to delete the project `project_id`.
pub fn delete_project(project_id: ProjectId) -> (prompt: Prompt)
    ensures
        prompt@ == confirmation(
            "deleting selected project"@,
            ConfirmCallback::DeleteProject(project_id),
        ),
{
    Prompt::Confirm(
        ConfirmPrompt::new("deleting selected project", ConfirmCallback::DeleteProject(project_id)),
    )
}

/// The prompt that asks for the name of a new task of the project
/// `project_id`.
pub fn new_task(project_id: ProjectId) -> (prompt: Prompt)
    ensures
        prompt@ == empty_input(
            "New Task"@,
            TASK_NAME_LIMIT,
            false,
            InputCallback::NewTask(project_id),
        ),
{
    Prompt::Input(
        InputPrompt::new("New Task", TASK_NAME_LIMIT, false, InputCallback::NewTask(project_id)),
    )
}

/// The prompt that asks whether to delete the task `task_id`.
pub fn delete_task(task_id: TaskId) -> (prompt: Prompt)
    ensures
        prompt@ == confirmation("deleting selected task"@, ConfirmCallback::DeleteTask(task_id)),
{
    Prompt::Confirm(
        ConfirmPrompt::new("deleting selected task", ConfirmCallback::DeleteTask(task_id)),
    )
}

} // verus!
