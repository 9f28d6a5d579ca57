use taskboard::app::{App, Inconsistency, Outcome, Pane, Settings, State};
use taskboard::explorer::Explorer;
use taskboard::input::{
    handle_event, Command, ConfirmCallback, ConfirmPrompt, InputCallback, InputPrompt, Prompt,
    Reaction, TagSelectCallback, TagSelectPrompt,
};
use taskboard::keys::{Event, KeyCode, KeyEvent, KeyModifiers, ALT, CONTROL, NONE, SHIFT};
use taskboard::model::{Project, ProjectId, Tag, TagId, Task, TaskId};
use taskboard::prompts;
use taskboard::repository::Repository;

fn press(code: KeyCode) -> Event {
    Event::Key(KeyEvent { code, modifiers: KeyModifiers(NONE) })
}

fn press_with(code: KeyCode, modifiers: u8) -> Event {
    Event::Key(KeyEvent { code, modifiers: KeyModifiers(modifiers) })
}

fn ch(c: char) -> Event {
    press(KeyCode::Char(c))
}

fn fresh_app() -> App {
    App::new(Settings::default(), State::default(), Repository::default())
}

fn type_text(app: &mut App, text: &str) {
    for c in text.chars() {
        assert!(matches!(handle_event(app, ch(c)), Reaction::Continue));
    }
}

/// Stands for the storage: carries out a command and reports what it made.
fn carry_out(command: Command, next_id: &mut u32) -> Outcome {
    match command {
        Command::CreateTag(name) => {
            *next_id += 1;
            Outcome::TagCreated(Tag { id: TagId(*next_id), name })
        }
        Command::CreateProject(name) => {
            *next_id += 1;
            Outcome::ProjectCreated(Project {
                id: ProjectId(*next_id),
                name,
                default_tags: Vec::new(),
                tasks: Vec::new(),
            })
        }
        Command::CreateTask(project_id, name) => {
            *next_id += 1;
            Outcome::TaskCreated(Task { id: TaskId(*next_id), project_id, name, tags: Vec::new() })
        }
        Command::DeleteTag(id) => Outcome::TagDeleted(id),
        Command::DeleteProject(id) => Outcome::ProjectDeleted(id),
        Command::DeleteTask(id) => Outcome::TaskDeleted(id),
        Command::TagTask(task, tag) => Outcome::TaskTagged(task, tag),
    }
}

/// Sends an event and has the storage stand-in carry out what comes of it.
fn send(app: &mut App, event: Event, next_id: &mut u32) -> bool {
    match handle_event(app, event) {
        Reaction::Continue => false,
        Reaction::Quit => true,
        Reaction::Run(command) => {
            app.complete(carry_out(command, next_id)).unwrap();
            false
        }
    }
}

fn create_project(app: &mut App, name: &str, next_id: &mut u32) {
    assert!(!send(app, ch('N'), next_id));
    type_text(app, name);
    assert!(!send(app, press(KeyCode::Enter), next_id));
}

fn create_task(app: &mut App, name: &str, next_id: &mut u32) {
    assert!(!send(app, ch('N'), next_id));
    type_text(app, name);
    assert!(!send(app, press(KeyCode::Enter), next_id));
}

fn project_names(app: &App) -> Vec<String> {
    app.state()
        .explorer
        .projects
        .items::<Project>(app.repository())
        .iter()
        .map(|p| p.name.clone())
        .collect()
}

fn task_names(app: &App) -> Vec<String> {
    match &app.state().explorer.tasks {
        Some(tasks) => {
            tasks.items::<Task>(app.repository()).iter().map(|t| t.name.clone()).collect()
        }
        None => Vec::new(),
    }
}

fn top_input(app: &App) -> &InputPrompt {
    match app.prompt() {
        Some(Prompt::Input(input)) => input,
        _ => panic!("the top prompt is no input prompt"),
    }
}

fn top_select(app: &App) -> &TagSelectPrompt {
    match app.prompt() {
        Some(Prompt::TagSelect(select)) => select,
        _ => panic!("the top prompt is no selection prompt"),
    }
}

fn depth(app: &App) -> usize {
    app.state().prompt_stack.len()
}

#[test]
fn projects_are_listed_by_name() {
    let mut store = Repository::default();
    for (id, name) in [(1, "Beta"), (2, "Alpha")] {
        store.add_project(Project {
            id: ProjectId(id),
            name: name.to_string(),
            default_tags: Vec::new(),
            tasks: Vec::new(),
        });
    }
    let mut app = App::new(Settings::default(), State::default(), store);
    app.sync();
    assert_eq!(project_names(&app), vec!["Alpha", "Beta"]);
    assert_eq!(app.state().explorer.projects.selected, 0);
    assert_eq!(depth(&app), 0);
}

#[test]
fn creating_a_project_keeps_the_cursor_on_the_selected_one() {
    let mut app = fresh_app();
    let mut next_id = 0;
    create_project(&mut app, "Beta", &mut next_id);
    assert_eq!(app.state().explorer.projects.selected, 0);
    create_project(&mut app, "Alpha", &mut next_id);
    assert_eq!(project_names(&app), vec!["Alpha", "Beta"]);
    // Beta was under the cursor and still is
    assert_eq!(app.state().explorer.projects.selected, 1);
}

#[test]
fn deleting_the_first_project_selects_the_next() {
    let mut app = fresh_app();
    let mut next_id = 0;
    create_project(&mut app, "Alpha", &mut next_id);
    create_project(&mut app, "Beta", &mut next_id);
    send(&mut app, press(KeyCode::Down), &mut next_id);
    send(&mut app, press(KeyCode::Enter), &mut next_id);
    create_task(&mut app, "beta task", &mut next_id);
    send(&mut app, press(KeyCode::Esc), &mut next_id);
    send(&mut app, press(KeyCode::Up), &mut next_id);
    assert_eq!(project_names(&app), vec!["Alpha", "Beta"]);
    assert_eq!(app.state().explorer.projects.selected, 0);
    assert!(task_names(&app).is_empty());

    send(&mut app, ch('D'), &mut next_id);
    assert_eq!(depth(&app), 1);
    send(&mut app, press(KeyCode::Enter), &mut next_id);
    assert_eq!(depth(&app), 0);
    assert_eq!(project_names(&app), vec!["Beta"]);
    assert_eq!(app.state().explorer.projects.selected, 0);
    assert_eq!(task_names(&app), vec!["beta task"]);
}

#[test]
fn deleting_a_later_project_selects_the_one_before() {
    let mut app = fresh_app();
    let mut next_id = 0;
    create_project(&mut app, "A", &mut next_id);
    create_project(&mut app, "B", &mut next_id);
    create_project(&mut app, "C", &mut next_id);
    send(&mut app, ch('j'), &mut next_id);
    send(&mut app, ch('j'), &mut next_id);
    assert_eq!(app.state().explorer.projects.selected, 2);
    send(&mut app, ch('D'), &mut next_id);
    send(&mut app, press(KeyCode::Enter), &mut next_id);
    assert_eq!(project_names(&app), vec!["A", "B"]);
    assert_eq!(app.state().explorer.projects.selected, 1);
}

#[test]
fn deleting_the_last_project_leaves_no_task_list() {
    let mut app = fresh_app();
    let mut next_id = 0;
    create_project(&mut app, "Only", &mut next_id);
    assert!(app.state().explorer.tasks.is_some());
    send(&mut app, ch('D'), &mut next_id);
    send(&mut app, press(KeyCode::Enter), &mut next_id);
    assert!(project_names(&app).is_empty());
    assert!(app.state().explorer.tasks.is_none());
    assert_eq!(app.state().explorer.projects.selected, 0);
}

#[test]
fn deleting_the_selected_task_selects_the_first() {
    let mut app = fresh_app();
    let mut next_id = 0;
    create_project(&mut app, "P", &mut next_id);
    send(&mut app, press(KeyCode::Enter), &mut next_id);
    assert_eq!(app.state().focus, Pane::Main);
    create_task(&mut app, "T1", &mut next_id);
    create_task(&mut app, "T2", &mut next_id);
    assert_eq!(task_names(&app), vec!["T1", "T2"]);
    assert_eq!(app.state().explorer.tasks().selected, 0);
    send(&mut app, ch('D'), &mut next_id);
    send(&mut app, press(KeyCode::Enter), &mut next_id);
    assert_eq!(task_names(&app), vec!["T2"]);
    assert_eq!(app.state().explorer.tasks().selected, 0);
    assert_eq!(
        app.repository().project(&ProjectId(1)).unwrap().tasks,
        vec![TaskId(3)]
    );
}

#[test]
fn navigation_cascades_to_the_task_list() {
    let mut app = fresh_app();
    let mut next_id = 0;
    create_project(&mut app, "A", &mut next_id);
    create_project(&mut app, "B", &mut next_id);
    send(&mut app, press(KeyCode::Enter), &mut next_id);
    create_task(&mut app, "a2", &mut next_id);
    create_task(&mut app, "a1", &mut next_id);
    send(&mut app, ch('j'), &mut next_id);
    assert_eq!(app.state().explorer.tasks().selected, 1);
    send(&mut app, press(KeyCode::Esc), &mut next_id);
    assert_eq!(app.state().focus, Pane::ProjectExplorer);
    send(&mut app, press(KeyCode::Down), &mut next_id);
    assert_eq!(app.state().explorer.projects.selected, 1);
    assert!(task_names(&app).is_empty());
    assert!(app.state().explorer.tasks.is_some());
    send(&mut app, ch('k'), &mut next_id);
    assert_eq!(task_names(&app), vec!["a1", "a2"]);
    assert_eq!(app.state().explorer.tasks().selected, 0);
    send(&mut app, ch('k'), &mut next_id);
    assert_eq!(app.state().explorer.projects.selected, 0);
}

#[test]
fn task_cursor_moves_within_its_list() {
    let mut app = fresh_app();
    let mut next_id = 0;
    create_project(&mut app, "A", &mut next_id);
    send(&mut app, ch('<'), &mut next_id);
    create_task(&mut app, "x", &mut next_id);
    create_task(&mut app, "y", &mut next_id);
    send(&mut app, press(KeyCode::Up), &mut next_id);
    assert_eq!(app.state().explorer.tasks().selected, 0);
    send(&mut app, press(KeyCode::Down), &mut next_id);
    send(&mut app, press(KeyCode::Down), &mut next_id);
    assert_eq!(app.state().explorer.tasks().selected, 1);
    send(&mut app, ch('k'), &mut next_id);
    assert_eq!(app.state().explorer.tasks().selected, 0);
}

#[test]
fn main_pane_without_a_project_takes_no_key() {
    let mut app = fresh_app();
    let mut next_id = 0;
    send(&mut app, ch('<'), &mut next_id);
    assert_eq!(app.state().focus, Pane::Main);
    for c in ['N', 'D', 't', 'j', 'k'] {
        assert!(!send(&mut app, ch(c), &mut next_id));
    }
    assert_eq!(depth(&app), 0);
}

#[test]
fn layout_keys_fold_and_unfold() {
    let mut app = fresh_app();
    let mut next_id = 0;
    assert_eq!(app.state().focus, Pane::ProjectExplorer);
    send(&mut app, ch('<'), &mut next_id);
    assert!(app.state().explorer.collapsed);
    assert_eq!(app.state().focus, Pane::Main);
    send(&mut app, ch('>'), &mut next_id);
    assert!(!app.state().explorer.collapsed);
    assert_eq!(app.state().focus, Pane::ProjectExplorer);
    send(&mut app, press(KeyCode::Enter), &mut next_id);
    assert!(app.state().explorer.collapsed);
    assert_eq!(app.state().focus, Pane::Main);
    send(&mut app, press(KeyCode::Enter), &mut next_id);
    assert_eq!(app.state().focus, Pane::Main);
    assert!(!send(&mut app, press(KeyCode::Esc), &mut next_id));
    assert!(!app.state().explorer.collapsed);
    assert_eq!(app.state().focus, Pane::ProjectExplorer);
}

#[test]
fn quitting() {
    let mut app = fresh_app();
    let mut next_id = 0;
    assert!(send(&mut app, ch('q'), &mut next_id));
    assert!(send(&mut app, press(KeyCode::Esc), &mut next_id));
    assert!(send(&mut app, press_with(KeyCode::Char('q'), CONTROL), &mut next_id));
    send(&mut app, ch('<'), &mut next_id);
    assert!(send(&mut app, ch('q'), &mut next_id));
    assert!(!send(&mut app, ch('?'), &mut next_id));
    assert!(!send(&mut app, Event::Other, &mut next_id));
    assert!(!send(&mut app, press(KeyCode::Other), &mut next_id));
    assert!(!send(&mut app, press(KeyCode::Backspace), &mut next_id));
    // with a prompt open, q is text
    send(&mut app, ch('>'), &mut next_id);
    send(&mut app, ch('N'), &mut next_id);
    assert!(!send(&mut app, ch('q'), &mut next_id));
    assert_eq!(top_input(&app).value, "q");
}

#[test]
fn input_prompt_takes_text_up_to_its_limit() {
    let mut app = fresh_app();
    app.show_prompt(Prompt::Input(InputPrompt::new("Name", 4, false, InputCallback::NewProject)));
    type_text(&mut app, "ab c");
    assert_eq!(top_input(&app).value, "ab c");
    type_text(&mut app, "d");
    assert_eq!(top_input(&app).value, "ab c");
    handle_event(&mut app, press(KeyCode::Backspace));
    handle_event(&mut app, press(KeyCode::Backspace));
    assert_eq!(top_input(&app).value, "ab");
    handle_event(&mut app, press_with(KeyCode::Char('X'), SHIFT));
    assert_eq!(top_input(&app).value, "abX");
    handle_event(&mut app, press_with(KeyCode::Char('y'), CONTROL));
    handle_event(&mut app, press_with(KeyCode::Char('y'), ALT));
    handle_event(&mut app, press_with(KeyCode::Char('y'), SHIFT | CONTROL));
    assert_eq!(top_input(&app).value, "abX");
    handle_event(&mut app, press(KeyCode::Up));
    handle_event(&mut app, press(KeyCode::Other));
    assert_eq!(top_input(&app).value, "abX");
    assert_eq!(depth(&app), 1);
}

#[test]
fn input_limit_counts_characters() {
    let mut app = fresh_app();
    app.show_prompt(Prompt::Input(InputPrompt::new("Name", 3, false, InputCallback::NewProject)));
    type_text(&mut app, "éé");
    assert_eq!(top_input(&app).value, "éé");
    // two characters in four bytes: there is room for a third
    type_text(&mut app, "x");
    assert_eq!(top_input(&app).value, "ééx");
    type_text(&mut app, "y");
    assert_eq!(top_input(&app).value, "ééx");
    type_text(&mut app, "é");
    assert_eq!(top_input(&app).value, "ééx");
}

#[test]
fn a_suggested_character_of_two_bytes_leaves_room_for_one_more() {
    let mut app = fresh_app();
    app.show_prompt(Prompt::Input(
        InputPrompt::new("t", 2, false, InputCallback::NewProject).suggest("é".to_string()),
    ));
    assert!(matches!(handle_event(&mut app, ch('a')), Reaction::Continue));
    assert_eq!(top_input(&app).value, "éa");
    assert!(matches!(handle_event(&mut app, ch('b')), Reaction::Continue));
    assert_eq!(top_input(&app).value, "éa");
    assert_eq!(depth(&app), 1);
}

#[test]
fn a_wide_character_is_taken_only_while_there_is_room() {
    let mut app = fresh_app();
    app.show_prompt(Prompt::Input(
        InputPrompt::new("t", 2, false, InputCallback::NewProject).suggest("a".to_string()),
    ));
    type_text(&mut app, "é");
    assert_eq!(top_input(&app).value, "aé");
    type_text(&mut app, "é");
    assert_eq!(top_input(&app).value, "aé");
}

#[test]
fn a_plain_q_goes_into_the_open_input_prompt() {
    let mut store = Repository::default();
    store.add_project(Project {
        id: ProjectId(1),
        name: "P".to_string(),
        default_tags: Vec::new(),
        tasks: Vec::new(),
    });
    let mut app = App::new(Settings::default(), State::default(), store);
    app.show_prompt(Prompt::Input(
        InputPrompt::new("t", 3, false, InputCallback::NewProject).suggest("éé".to_string()),
    ));
    assert!(matches!(handle_event(&mut app, ch('q')), Reaction::Continue));
    assert_eq!(top_input(&app).value, "ééq");
    assert_eq!(depth(&app), 1);
    assert_eq!(app.state().focus, Pane::ProjectExplorer);
    assert_eq!(app.state().explorer.projects.selected, 0);
    assert!(!app.state().explorer.collapsed);
}

#[test]
fn input_prompt_with_no_room_takes_nothing() {
    let mut app = fresh_app();
    app.show_prompt(Prompt::Input(InputPrompt::new("Name", 0, false, InputCallback::NewProject)));
    type_text(&mut app, "a");
    assert_eq!(top_input(&app).value, "");
}

#[test]
fn alphanumeric_prompt_takes_letters_and_digits_only() {
    let mut app = fresh_app();
    app.show_prompt(prompts::new_tag());
    type_text(&mut app, "a b-c_7!é٣");
    assert_eq!(top_input(&app).value, "abc7é٣");
    assert_eq!(top_input(&app).limit, 15);
    assert!(top_input(&app).alphanumeric);
    assert_eq!(top_input(&app).title, "New Tag");
}

#[test]
fn backspace_on_empty_text_changes_nothing() {
    let mut app = fresh_app();
    app.show_prompt(prompts::new_project());
    handle_event(&mut app, press(KeyCode::Backspace));
    assert_eq!(top_input(&app).value, "");
    assert_eq!(depth(&app), 1);
}

#[test]
fn enter_on_empty_text_does_nothing() {
    let mut app = fresh_app();
    app.show_prompt(prompts::new_project());
    assert!(matches!(handle_event(&mut app, press(KeyCode::Enter)), Reaction::Continue));
    assert_eq!(depth(&app), 1);
    assert!(app.repository().project_entries().is_empty());
}

#[test]
fn enter_hands_out_the_command_once() {
    let mut app = fresh_app();
    app.show_prompt(prompts::new_task(ProjectId(4)));
    type_text(&mut app, "buy milk");
    match handle_event(&mut app, press(KeyCode::Enter)) {
        Reaction::Run(Command::CreateTask(project, name)) => {
            assert_eq!(project, ProjectId(4));
            assert_eq!(name, "buy milk");
        }
        _ => panic!("no command came"),
    }
    assert_eq!(depth(&app), 0);
    // nothing is stored before the outcome is reported
    assert!(app.repository().task_entries(&Project {
        id: ProjectId(4),
        name: String::new(),
        default_tags: Vec::new(),
        tasks: Vec::new(),
    }).is_empty());
}

#[test]
fn escape_closes_without_a_command() {
    let mut app = fresh_app();
    app.show_prompt(prompts::new_project());
    type_text(&mut app, "Name");
    assert!(matches!(handle_event(&mut app, press(KeyCode::Esc)), Reaction::Continue));
    assert_eq!(depth(&app), 0);
    assert!(project_names(&app).is_empty());
}

#[test]
fn cancelling_every_prompt_returns_to_idle() {
    let mut app = fresh_app();
    let mut next_id = 0;
    create_project(&mut app, "P", &mut next_id);
    let before = project_names(&app);
    app.show_prompt(prompts::new_project());
    app.show_prompt(prompts::delete_project(ProjectId(1)));
    app.show_prompt(Prompt::TagSelect(TagSelectPrompt::new("Pick", TagSelectCallback::TagTask(TaskId(1)))));
    app.show_prompt(prompts::delete_task(TaskId(1)));
    app.show_prompt(prompts::new_tag());
    for left in (0..5).rev() {
        let modifiers = if left % 2 == 0 { NONE } else { SHIFT | CONTROL };
        assert!(matches!(
            handle_event(&mut app, press_with(KeyCode::Esc, modifiers)),
            Reaction::Continue
        ));
        assert_eq!(depth(&app), left);
    }
    assert!(app.prompt().is_none());
    assert_eq!(project_names(&app), before);
    assert!(app.repository().project(&ProjectId(1)).is_some());
    assert_eq!(app.state().focus, Pane::ProjectExplorer);
}

#[test]
fn confirm_prompt_takes_enter_and_escape_only() {
    let mut app = fresh_app();
    app.show_prompt(prompts::delete_tag(TagId(3)));
    assert!(matches!(handle_event(&mut app, ch('y')), Reaction::Continue));
    assert!(matches!(handle_event(&mut app, press(KeyCode::Backspace)), Reaction::Continue));
    assert_eq!(depth(&app), 1);
    match app.prompt() {
        Some(Prompt::Confirm(confirm)) => {
            assert_eq!(confirm.action, "deleting selected tag");
            assert_eq!(confirm.callback, ConfirmCallback::DeleteTag(TagId(3)));
        }
        _ => panic!("the top prompt is no confirmation"),
    }
    match handle_event(&mut app, press(KeyCode::Enter)) {
        Reaction::Run(Command::DeleteTag(id)) => assert_eq!(id, TagId(3)),
        _ => panic!("no command came"),
    }
    assert_eq!(depth(&app), 0);
}

fn app_with_tags(names: &[&str]) -> (App, u32) {
    let mut store = Repository::default();
    let mut next_id = 0;
    for name in names {
        next_id += 1;
        store.add_tag(Tag { id: TagId(next_id), name: name.to_string() });
    }
    next_id += 1;
    let project = next_id;
    store.add_project(Project {
        id: ProjectId(project),
        name: "P".to_string(),
        default_tags: Vec::new(),
        tasks: Vec::new(),
    });
    next_id += 1;
    store.add_task(Task {
        id: TaskId(next_id),
        project_id: ProjectId(project),
        name: "T".to_string(),
        tags: Vec::new(),
    });
    let mut app = App::new(Settings::default(), State::default(), store);
    let mut ids = next_id;
    send(&mut app, ch('<'), &mut ids);
    (app, next_id)
}

fn listed_tags(app: &App) -> Vec<String> {
    top_select(app)
        .explorer
        .items::<Tag>(app.repository())
        .iter()
        .map(|t| t.name.clone())
        .collect()
}

#[test]
fn tag_selection_lists_all_tags_by_name() {
    let (mut app, mut next_id) = app_with_tags(&["work", "home", "hobby"]);
    send(&mut app, ch('t'), &mut next_id);
    assert_eq!(top_select(&app).title, "Add tag to task");
    assert_eq!(top_select(&app).search, "");
    assert_eq!(listed_tags(&app), vec!["hobby", "home", "work"]);
    assert_eq!(top_select(&app).explorer.selected, 0);
    assert_eq!(top_select(&app).callback, TagSelectCallback::TagTask(TaskId(5)));
}

#[test]
fn tag_selection_filters_by_prefix() {
    let (mut app, mut next_id) = app_with_tags(&["work", "home", "hobby", "Home"]);
    send(&mut app, ch('t'), &mut next_id);
    send(&mut app, press(KeyCode::Down), &mut next_id);
    send(&mut app, press(KeyCode::Down), &mut next_id);
    // the cursor is on "home"
    assert_eq!(listed_tags(&app), vec!["Home", "hobby", "home", "work"]);
    assert_eq!(top_select(&app).explorer.selected, 2);
    type_text(&mut app, "h");
    assert_eq!(listed_tags(&app), vec!["hobby", "home"]);
    assert_eq!(top_select(&app).explorer.selected, 1);
    type_text(&mut app, "o");
    assert_eq!(top_select(&app).search, "ho");
    assert_eq!(listed_tags(&app), vec!["hobby", "home"]);
    type_text(&mut app, "b");
    assert_eq!(listed_tags(&app), vec!["hobby"]);
    assert_eq!(top_select(&app).explorer.selected, 0);
    type_text(&mut app, "x");
    assert!(listed_tags(&app).is_empty());
    send(&mut app, press(KeyCode::Backspace), &mut next_id);
    send(&mut app, press(KeyCode::Backspace), &mut next_id);
    assert_eq!(top_select(&app).search, "ho");
    assert_eq!(listed_tags(&app), vec!["hobby", "home"]);
    // what is no letter or digit is not searched for
    type_text(&mut app, " -");
    assert_eq!(top_select(&app).search, "ho");
    send(&mut app, press(KeyCode::Backspace), &mut next_id);
    send(&mut app, press(KeyCode::Backspace), &mut next_id);
    send(&mut app, press(KeyCode::Backspace), &mut next_id);
    assert_eq!(top_select(&app).search, "");
    assert_eq!(listed_tags(&app).len(), 4);
}

#[test]
fn tag_selection_moves_its_cursor() {
    let (mut app, mut next_id) = app_with_tags(&["a", "b", "c"]);
    send(&mut app, ch('t'), &mut next_id);
    send(&mut app, press_with(KeyCode::Char('j'), CONTROL), &mut next_id);
    assert_eq!(top_select(&app).explorer.selected, 1);
    send(&mut app, press(KeyCode::Down), &mut next_id);
    send(&mut app, press(KeyCode::Down), &mut next_id);
    assert_eq!(top_select(&app).explorer.selected, 2);
    send(&mut app, press_with(KeyCode::Char('k'), CONTROL), &mut next_id);
    assert_eq!(top_select(&app).explorer.selected, 1);
    send(&mut app, press(KeyCode::Up), &mut next_id);
    send(&mut app, press(KeyCode::Up), &mut next_id);
    assert_eq!(top_select(&app).explorer.selected, 0);
    // with alt or with control and an unbound letter nothing happens
    send(&mut app, press_with(KeyCode::Char('j'), ALT), &mut next_id);
    send(&mut app, press_with(KeyCode::Char('x'), CONTROL), &mut next_id);
    assert_eq!(top_select(&app).explorer.selected, 0);
    assert_eq!(top_select(&app).search, "");
    assert_eq!(depth(&app), 1);
}

#[test]
fn tag_selection_hands_out_the_tag_under_the_cursor() {
    let (mut app, mut next_id) = app_with_tags(&["b", "a"]);
    send(&mut app, ch('t'), &mut next_id);
    send(&mut app, press(KeyCode::Down), &mut next_id);
    match handle_event(&mut app, press(KeyCode::Enter)) {
        Reaction::Run(Command::TagTask(task, tag)) => {
            assert_eq!(task, TaskId(4));
            assert_eq!(tag, TagId(1));
            app.complete(Outcome::TaskTagged(task, tag)).unwrap();
        }
        _ => panic!("no command came"),
    }
    assert_eq!(depth(&app), 0);
    assert!(app.repository().task(&TaskId(4)).unwrap().tags.is_empty());
}

#[test]
fn tag_selection_with_nothing_listed_takes_no_enter() {
    let (mut app, mut next_id) = app_with_tags(&[]);
    send(&mut app, ch('t'), &mut next_id);
    assert!(matches!(handle_event(&mut app, press(KeyCode::Enter)), Reaction::Continue));
    assert_eq!(depth(&app), 1);
    send(&mut app, press_with(KeyCode::Char('d'), CONTROL), &mut next_id);
    assert_eq!(depth(&app), 1);
}

#[test]
fn a_tag_made_from_the_selection_shows_in_it() {
    let (mut app, mut next_id) = app_with_tags(&["home", "work"]);
    send(&mut app, ch('t'), &mut next_id);
    type_text(&mut app, "ho");
    assert_eq!(listed_tags(&app), vec!["home"]);
    send(&mut app, press_with(KeyCode::Char('n'), CONTROL), &mut next_id);
    assert_eq!(depth(&app), 2);
    assert_eq!(top_input(&app).value, "ho");
    assert_eq!(top_input(&app).callback, InputCallback::NewTag);
    type_text(&mut app, "bby");
    match handle_event(&mut app, press(KeyCode::Enter)) {
        Reaction::Run(Command::CreateTag(name)) => {
            assert_eq!(name, "hobby");
            app.complete(Outcome::TagCreated(Tag { id: TagId(50), name })).unwrap();
        }
        _ => panic!("no command came"),
    }
    assert_eq!(depth(&app), 1);
    assert_eq!(app.repository().tag(&TagId(50)).unwrap().name, "hobby");
    assert_eq!(top_select(&app).search, "ho");
    assert_eq!(listed_tags(&app), vec!["hobby", "home"]);
    // the cursor stayed on "home"
    assert_eq!(top_select(&app).explorer.selected, 1);
    send(&mut app, press(KeyCode::Up), &mut next_id);
    match handle_event(&mut app, press(KeyCode::Enter)) {
        Reaction::Run(Command::TagTask(task, tag)) => {
            assert_eq!(task, TaskId(4));
            assert_eq!(tag, TagId(50));
        }
        _ => panic!("no command came"),
    }
    assert_eq!(depth(&app), 0);
}

#[test]
fn a_tag_that_does_not_match_the_search_stays_out() {
    let (mut app, mut next_id) = app_with_tags(&["home"]);
    send(&mut app, ch('t'), &mut next_id);
    type_text(&mut app, "h");
    send(&mut app, press_with(KeyCode::Char('n'), CONTROL), &mut next_id);
    send(&mut app, press(KeyCode::Backspace), &mut next_id);
    type_text(&mut app, "work");
    send(&mut app, press(KeyCode::Enter), &mut next_id);
    assert!(app.repository().get_tag_by_name("work").is_some());
    assert_eq!(listed_tags(&app), vec!["home"]);
}

#[test]
fn a_tag_deleted_from_the_selection_leaves_it() {
    let (mut app, mut next_id) = app_with_tags(&["a", "b", "c"]);
    send(&mut app, ch('t'), &mut next_id);
    send(&mut app, press(KeyCode::Down), &mut next_id);
    send(&mut app, press_with(KeyCode::Char('d'), CONTROL), &mut next_id);
    assert_eq!(depth(&app), 2);
    send(&mut app, press(KeyCode::Enter), &mut next_id);
    assert_eq!(depth(&app), 1);
    assert_eq!(listed_tags(&app), vec!["a", "c"]);
    assert_eq!(top_select(&app).explorer.selected, 0);
    assert!(app.repository().tag(&TagId(2)).is_none());
}

#[test]
fn cancelling_a_nested_prompt_leaves_the_selection_as_it_was() {
    let (mut app, mut next_id) = app_with_tags(&["a", "b"]);
    send(&mut app, ch('t'), &mut next_id);
    send(&mut app, press(KeyCode::Down), &mut next_id);
    send(&mut app, press_with(KeyCode::Char('d'), CONTROL), &mut next_id);
    send(&mut app, press(KeyCode::Esc), &mut next_id);
    assert_eq!(depth(&app), 1);
    assert_eq!(listed_tags(&app), vec!["a", "b"]);
    assert_eq!(top_select(&app).explorer.selected, 1);
}

#[test]
fn an_outcome_that_does_not_fit_is_refused() {
    let mut app = fresh_app();
    let orphan = Task {
        id: TaskId(1),
        project_id: ProjectId(9),
        name: "lost".to_string(),
        tags: Vec::new(),
    };
    assert_eq!(
        app.complete(Outcome::TaskCreated(orphan)),
        Err(Inconsistency::ProjectMissing(ProjectId(9)))
    );
    assert!(app.repository().task(&TaskId(1)).is_none());

    let store = Repository::load(
        Vec::new(),
        vec![Project {
            id: ProjectId(1),
            name: "P".to_string(),
            default_tags: Vec::new(),
            tasks: Vec::new(),
        }],
        vec![Task { id: TaskId(2), project_id: ProjectId(1), name: "t".to_string(), tags: Vec::new() }],
    );
    let mut app = App::new(Settings::default(), State::default(), store);
    assert_eq!(
        app.complete(Outcome::TaskDeleted(TaskId(2))),
        Err(Inconsistency::TaskUnlisted(TaskId(2)))
    );
    assert!(app.repository().task(&TaskId(2)).is_some());
    assert_eq!(app.complete(Outcome::TaskDeleted(TaskId(77))), Ok(()));
}

#[test]
fn a_task_under_a_listed_identifier_is_refused() {
    let mut store = Repository::default();
    store.add_project(Project {
        id: ProjectId(1),
        name: "P".to_string(),
        default_tags: Vec::new(),
        tasks: Vec::new(),
    });
    store.add_task(Task { id: TaskId(10), project_id: ProjectId(1), name: "t".to_string(), tags: Vec::new() });
    let mut app = App::new(Settings::default(), State::default(), store);
    app.show_prompt(prompts::new_tag());
    let again =
        Task { id: TaskId(10), project_id: ProjectId(1), name: "u".to_string(), tags: Vec::new() };
    assert_eq!(
        app.complete(Outcome::TaskCreated(again)),
        Err(Inconsistency::TaskRepeated(TaskId(10)))
    );
    assert_eq!(app.repository().project(&ProjectId(1)).unwrap().tasks, vec![TaskId(10)]);
    assert_eq!(app.repository().task(&TaskId(10)).unwrap().name, "t");
    assert_eq!(app.state().explorer.tasks().items, vec![TaskId(10)]);
    assert_eq!(depth(&app), 1);

    let other =
        Task { id: TaskId(11), project_id: ProjectId(1), name: "u".to_string(), tags: Vec::new() };
    assert_eq!(app.complete(Outcome::TaskCreated(other)), Ok(()));
    assert_eq!(
        app.repository().project(&ProjectId(1)).unwrap().tasks,
        vec![TaskId(10), TaskId(11)]
    );
}

#[test]
fn a_task_may_take_the_identifier_of_a_task_without_a_project() {
    let mut store = Repository::default();
    for id in [1, 2] {
        store.add_project(Project {
            id: ProjectId(id),
            name: "P".to_string(),
            default_tags: Vec::new(),
            tasks: Vec::new(),
        });
    }
    store.add_task(Task { id: TaskId(10), project_id: ProjectId(1), name: "t".to_string(), tags: Vec::new() });
    store.remove_project(&ProjectId(1));
    let mut app = App::new(Settings::default(), State::default(), store);
    let again =
        Task { id: TaskId(10), project_id: ProjectId(2), name: "u".to_string(), tags: Vec::new() };
    assert_eq!(app.complete(Outcome::TaskCreated(again)), Ok(()));
    assert_eq!(app.repository().project(&ProjectId(2)).unwrap().tasks, vec![TaskId(10)]);
    assert_eq!(app.repository().task(&TaskId(10)).unwrap().name, "u");
}

#[test]
fn a_project_with_a_list_that_does_not_fit_is_refused() {
    let mut store = Repository::default();
    store.add_project(Project {
        id: ProjectId(1),
        name: "P".to_string(),
        default_tags: Vec::new(),
        tasks: Vec::new(),
    });
    store.add_task(Task { id: TaskId(10), project_id: ProjectId(1), name: "t".to_string(), tags: Vec::new() });
    let mut app = App::new(Settings::default(), State::default(), store);

    // in place of a stored project, without the task that belongs to it
    let bare = Project {
        id: ProjectId(1),
        name: "Q".to_string(),
        default_tags: Vec::new(),
        tasks: Vec::new(),
    };
    assert_eq!(
        app.complete(Outcome::ProjectCreated(bare)),
        Err(Inconsistency::ListMismatch(ProjectId(1)))
    );
    assert_eq!(app.repository().project(&ProjectId(1)).unwrap().name, "P");
    assert_eq!(app.repository().project(&ProjectId(1)).unwrap().tasks, vec![TaskId(10)]);

    // with a task that is not stored
    let padded = Project {
        id: ProjectId(2),
        name: "R".to_string(),
        default_tags: Vec::new(),
        tasks: vec![TaskId(99)],
    };
    assert_eq!(
        app.complete(Outcome::ProjectCreated(padded)),
        Err(Inconsistency::ListMismatch(ProjectId(2)))
    );
    assert!(app.repository().project(&ProjectId(2)).is_none());

    // with the task that belongs to it, twice
    let twice = Project {
        id: ProjectId(1),
        name: "S".to_string(),
        default_tags: Vec::new(),
        tasks: vec![TaskId(10), TaskId(10)],
    };
    assert_eq!(
        app.complete(Outcome::ProjectCreated(twice)),
        Err(Inconsistency::ListMismatch(ProjectId(1)))
    );

    // with exactly the task that belongs to it
    let exact = Project {
        id: ProjectId(1),
        name: "T".to_string(),
        default_tags: Vec::new(),
        tasks: vec![TaskId(10)],
    };
    assert_eq!(app.complete(Outcome::ProjectCreated(exact)), Ok(()));
    assert_eq!(app.repository().project(&ProjectId(1)).unwrap().name, "T");
    assert_eq!(app.repository().project(&ProjectId(1)).unwrap().tasks, vec![TaskId(10)]);
}

#[test]
fn app_new_rebuilds_the_lists() {
    let mut store = Repository::default();
    store.add_project(Project {
        id: ProjectId(1),
        name: "b".to_string(),
        default_tags: Vec::new(),
        tasks: Vec::new(),
    });
    store.add_project(Project {
        id: ProjectId(2),
        name: "a".to_string(),
        default_tags: Vec::new(),
        tasks: Vec::new(),
    });
    let app = App::new(Settings::default(), State::default(), store);
    assert_eq!(project_names(&app), vec!["a", "b"]);
    assert!(app.state().explorer.tasks.is_some());
    assert!(app.prompt().is_none());
}

#[test]
fn show_close_and_awake() {
    let (mut app, _) = app_with_tags(&["x"]);
    assert!(app.close_prompt().is_none());
    let mut select = TagSelectPrompt::new("Pick", TagSelectCallback::TagTask(TaskId(1)));
    assert!(select.explorer.items.is_empty());
    select.search = "x".to_string();
    app.show_prompt(Prompt::TagSelect(select));
    assert!(listed_tags(&app).is_empty());
    app.awake_prompt();
    assert_eq!(listed_tags(&app), vec!["x"]);
    app.show_prompt(Prompt::Confirm(ConfirmPrompt::new("going on", ConfirmCallback::DeleteTag(TagId(1)))));
    app.awake_prompt();
    assert_eq!(depth(&app), 2);
    assert!(matches!(app.close_prompt(), Some(Prompt::Confirm(_))));
    assert!(matches!(app.close_prompt(), Some(Prompt::TagSelect(_))));
    app.awake_prompt();
    assert_eq!(depth(&app), 0);
}

#[test]
fn suggest_sets_the_text() {
    let prompt = prompts::new_tag().suggest("abc".to_string());
    match prompt {
        Prompt::Input(input) => {
            assert_eq!(input.value, "abc");
            assert_eq!(input.title, "New Tag");
        }
        _ => panic!("no input prompt"),
    }
    let input = InputPrompt::new("T", 9, true, InputCallback::NewTag).suggest("x".to_string());
    assert_eq!(input.value, "x");
    assert_eq!(input.limit, 9);
}

#[test]
fn the_prompts_of_the_key_bindings() {
    match prompts::new_project() {
        Prompt::Input(p) => {
            assert_eq!((p.title.as_str(), p.limit, p.alphanumeric), ("New Project", 20, false));
            assert_eq!(p.callback, InputCallback::NewProject);
            assert_eq!(p.value, "");
        }
        _ => panic!("no input prompt"),
    }
    match prompts::new_task(ProjectId(3)) {
        Prompt::Input(p) => {
            assert_eq!((p.title.as_str(), p.limit, p.alphanumeric), ("New Task", 150, false));
            assert_eq!(p.callback, InputCallback::NewTask(ProjectId(3)));
        }
        _ => panic!("no input prompt"),
    }
    match prompts::delete_project(ProjectId(3)) {
        Prompt::Confirm(p) => {
            assert_eq!(p.action, "deleting selected project");
            assert_eq!(p.callback, ConfirmCallback::DeleteProject(ProjectId(3)));
        }
        _ => panic!("no confirmation"),
    }
    match prompts::delete_task(TaskId(3)) {
        Prompt::Confirm(p) => {
            assert_eq!(p.action, "deleting selected task");
            assert_eq!(p.callback, ConfirmCallback::DeleteTask(TaskId(3)));
        }
        _ => panic!("no confirmation"),
    }
}

#[test]
fn modifiers() {
    let none = KeyModifiers(NONE);
    let shift = KeyModifiers(SHIFT);
    let both = KeyModifiers(SHIFT | CONTROL);
    assert!(none.is_empty());
    assert!(!shift.is_empty());
    assert!(both.contains(shift));
    assert!(both.contains(KeyModifiers(CONTROL)));
    assert!(!shift.contains(KeyModifiers(CONTROL)));
    assert!(shift.contains(none));
    assert_eq!(both.difference(shift), KeyModifiers(CONTROL));
    assert_eq!(shift.difference(shift), none);
    assert_eq!(KeyModifiers(ALT).difference(shift), KeyModifiers(ALT));
}

#[test]
fn update_focus_follows_the_layout() {
    let mut app = fresh_app();
    app.update_focus();
    assert_eq!(app.state().focus, Pane::ProjectExplorer);
    assert_eq!(Pane::default(), Pane::ProjectExplorer);
}

#[test]
fn input_prompt_tells_how_full_it_is() {
    let prompt = InputPrompt::new("Name", 3, false, InputCallback::NewProject);
    assert_eq!(prompt.char_count(), "0/3");
    assert!(!prompt.is_full());
    let prompt = prompt.suggest("ab".to_string());
    assert_eq!(prompt.char_count(), "2/3");
    assert!(!prompt.is_full());
    let prompt = prompt.suggest("aé".to_string());
    assert_eq!(prompt.char_count(), "2/3");
    assert!(!prompt.is_full());
    let prompt = prompt.suggest("aéé".to_string());
    assert_eq!(prompt.char_count(), "3/3");
    assert!(prompt.is_full());
    let prompt = prompt.suggest("aééb".to_string());
    assert_eq!(prompt.char_count(), "4/3");
    assert!(prompt.is_full());
    let prompt = InputPrompt::new("Name", 150, false, InputCallback::NewProject)
        .suggest("0123456789ab".to_string());
    assert_eq!(prompt.char_count(), "12/150");
}

#[test]
fn commands_of_callbacks() {
    assert!(matches!(
        InputCallback::NewTag.command("x".to_string()),
        Command::CreateTag(name) if name == "x"
    ));
    assert!(matches!(
        InputCallback::NewProject.command("y".to_string()),
        Command::CreateProject(name) if name == "y"
    ));
    assert!(matches!(
        InputCallback::NewTask(ProjectId(2)).command("z".to_string()),
        Command::CreateTask(ProjectId(2), name) if name == "z"
    ));
    assert!(matches!(
        TagSelectCallback::TagTask(TaskId(1)).command(TagId(2)),
        Command::TagTask(TaskId(1), TagId(2))
    ));
    assert!(matches!(ConfirmCallback::DeleteTag(TagId(1)).command(), Command::DeleteTag(TagId(1))));
    assert!(matches!(
        ConfirmCallback::DeleteProject(ProjectId(1)).command(),
        Command::DeleteProject(ProjectId(1))
    ));
    assert!(matches!(
        ConfirmCallback::DeleteTask(TaskId(1)).command(),
        Command::DeleteTask(TaskId(1))
    ));
}

#[test]
fn settings_are_handed_out() {
    let app = fresh_app();
    assert_eq!(format!("{:?}", app.settings()), format!("{:?}", Settings::default()));
}
