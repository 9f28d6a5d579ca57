use taskboard::model::{FromId, Project, ProjectId, Tag, TagId, Task, TaskId};
use taskboard::repository::Repository;

fn tag(id: u32, name: &str) -> Tag {
    Tag { id: TagId(id), name: name.to_string() }
}

fn project(id: u32, name: &str) -> Project {
    Project { id: ProjectId(id), name: name.to_string(), default_tags: Vec::new(), tasks: Vec::new() }
}

fn task(id: u32, project: u32, name: &str) -> Task {
    Task { id: TaskId(id), project_id: ProjectId(project), name: name.to_string(), tags: Vec::new() }
}

fn listed(store: &Repository, id: u32) -> Vec<TaskId> {
    store.project(&ProjectId(id)).unwrap().tasks.clone()
}

#[test]
fn empty_store_holds_nothing() {
    let store = Repository::default();
    assert!(store.tag(&TagId(1)).is_none());
    assert!(store.project(&ProjectId(1)).is_none());
    assert!(store.task(&TaskId(1)).is_none());
    assert!(store.project_entries().is_empty());
}

#[test]
fn add_tag_stores_and_replaces() {
    let mut store = Repository::default();
    store.add_tag(tag(1, "home"));
    assert_eq!(store.tag(&TagId(1)).unwrap().name, "home");
    store.add_tag(tag(1, "work"));
    assert_eq!(store.tag(&TagId(1)).unwrap().name, "work");
    assert!(store.tag(&TagId(2)).is_none());
}

#[test]
fn remove_tag_leaves_references() {
    let mut store = Repository::default();
    store.add_tag(tag(1, "home"));
    let mut p = project(1, "P");
    p.default_tags.push(TagId(1));
    store.add_project(p);
    store.remove_tag(&TagId(1));
    assert!(store.tag(&TagId(1)).is_none());
    assert_eq!(store.project(&ProjectId(1)).unwrap().default_tags, vec![TagId(1)]);
    store.remove_tag(&TagId(1));
    assert!(store.tag(&TagId(1)).is_none());
}

#[test]
fn add_task_appends_to_its_project() {
    let mut store = Repository::default();
    store.add_project(project(1, "P"));
    store.add_project(project(2, "Q"));
    store.add_task(task(10, 1, "T1"));
    store.add_task(task(11, 1, "T2"));
    store.add_task(task(12, 2, "T3"));
    assert_eq!(listed(&store, 1), vec![TaskId(10), TaskId(11)]);
    assert_eq!(listed(&store, 2), vec![TaskId(12)]);
    assert_eq!(store.task(&TaskId(11)).unwrap().name, "T2");
    assert_eq!(store.task(&TaskId(11)).unwrap().project_id, ProjectId(1));
}

#[test]
fn remove_task_takes_it_off_the_list() {
    let mut store = Repository::default();
    store.add_project(project(1, "P"));
    store.add_task(task(10, 1, "T1"));
    store.add_task(task(11, 1, "T2"));
    store.add_task(task(12, 1, "T3"));
    store.remove_task(&TaskId(11));
    assert_eq!(listed(&store, 1), vec![TaskId(10), TaskId(12)]);
    assert!(store.task(&TaskId(11)).is_none());
    assert!(store.task(&TaskId(10)).is_some());
}

#[test]
fn remove_task_that_is_not_stored_changes_nothing() {
    let mut store = Repository::default();
    store.add_project(project(1, "P"));
    store.add_task(task(10, 1, "T1"));
    assert!(store.lists_task(&TaskId(99)));
    store.remove_task(&TaskId(99));
    assert_eq!(listed(&store, 1), vec![TaskId(10)]);
    assert!(store.task(&TaskId(10)).is_some());
}

#[test]
fn remove_project_keeps_its_tasks() {
    let mut store = Repository::default();
    store.add_project(project(1, "P"));
    store.add_task(task(10, 1, "T1"));
    store.remove_project(&ProjectId(1));
    assert!(store.project(&ProjectId(1)).is_none());
    assert_eq!(store.task(&TaskId(10)).unwrap().project_id, ProjectId(1));
    // the task of the removed project can still be removed
    assert!(store.lists_task(&TaskId(10)));
    store.remove_task(&TaskId(10));
    assert!(store.task(&TaskId(10)).is_none());
}

#[test]
fn lists_task_tells_a_broken_list() {
    let mut listing = project(1, "P");
    listing.tasks.push(TaskId(10));
    let store = Repository::load(
        Vec::new(),
        vec![listing, project(2, "Q")],
        vec![task(10, 1, "T1"), task(11, 2, "T2")],
    );
    assert!(store.lists_task(&TaskId(10)));
    assert!(!store.lists_task(&TaskId(11)));
}

#[test]
fn every_list_stays_exact_over_a_run_of_changes() {
    let mut store = Repository::default();
    store.add_project(project(1, "P"));
    store.add_project(project(2, "Q"));
    for (id, owner) in [(10, 1), (11, 2), (12, 1), (13, 2), (14, 1)] {
        store.add_task(task(id, owner, "t"));
    }
    store.remove_task(&TaskId(12));
    store.add_task(task(15, 2, "t"));
    store.remove_task(&TaskId(11));
    store.remove_project(&ProjectId(1));
    store.add_task(task(16, 2, "t"));
    assert_eq!(listed(&store, 2), vec![TaskId(13), TaskId(15), TaskId(16)]);
    for id in [13, 15, 16] {
        assert_eq!(store.task(&TaskId(id)).unwrap().project_id, ProjectId(2));
    }
    for id in [10, 14] {
        assert_eq!(store.task(&TaskId(id)).unwrap().project_id, ProjectId(1));
    }
    assert!(store.task(&TaskId(11)).is_none());
    assert!(store.task(&TaskId(12)).is_none());
}

#[test]
fn admits_task_refuses_a_listed_identifier() {
    let mut store = Repository::default();
    store.add_project(project(1, "P"));
    store.add_project(project(2, "Q"));
    store.add_task(task(10, 1, "T1"));
    assert!(store.admits_task(&task(11, 1, "T2")));
    assert!(!store.admits_task(&task(10, 1, "T1")));
    assert!(!store.admits_task(&task(10, 2, "T1")));
    store.remove_project(&ProjectId(1));
    // the project of the stored task is gone: no list names it
    assert!(store.admits_task(&task(10, 2, "T1")));
    store.add_task(task(10, 2, "T1"));
    assert_eq!(listed(&store, 2), vec![TaskId(10)]);
    assert_eq!(store.task(&TaskId(10)).unwrap().project_id, ProjectId(2));
}

#[test]
fn admits_project_asks_for_the_exact_list() {
    let mut store = Repository::default();
    assert!(store.admits_project(&project(1, "P")));
    store.add_project(project(1, "P"));
    store.add_task(task(10, 1, "T1"));
    store.add_task(task(11, 1, "T2"));
    assert!(store.admits_project(&project(2, "Q")));
    assert!(!store.admits_project(&project(1, "P")));
    let mut p = project(1, "P");
    p.tasks = vec![TaskId(11), TaskId(10)];
    assert!(store.admits_project(&p));
    p.tasks = vec![TaskId(10)];
    assert!(!store.admits_project(&p));
    p.tasks = vec![TaskId(10), TaskId(11), TaskId(10)];
    assert!(!store.admits_project(&p));
    p.tasks = vec![TaskId(10), TaskId(11), TaskId(12)];
    assert!(!store.admits_project(&p));
    let mut q = project(2, "Q");
    q.tasks = vec![TaskId(10)];
    assert!(!store.admits_project(&q));
    // the tasks of a removed project wait for a project of that identifier
    store.remove_project(&ProjectId(1));
    assert!(!store.admits_project(&project(1, "P")));
    p.tasks = vec![TaskId(10), TaskId(11)];
    assert!(store.admits_project(&p));
    store.add_project(p);
    assert_eq!(listed(&store, 1), vec![TaskId(10), TaskId(11)]);
}

#[test]
fn get_by_name_finds_an_exact_match() {
    let mut store = Repository::default();
    store.add_tag(tag(1, "home"));
    store.add_tag(tag(2, "Home"));
    store.add_project(project(7, "Alpha"));
    assert_eq!(store.get_tag_by_name("home").unwrap().id, TagId(1));
    assert_eq!(store.get_tag_by_name("Home").unwrap().id, TagId(2));
    assert!(store.get_tag_by_name("hom").is_none());
    assert!(store.get_tag_by_name("").is_none());
    assert_eq!(store.get_project_by_name("Alpha").unwrap().id, ProjectId(7));
    assert!(store.get_project_by_name("alpha").is_none());
}

#[test]
fn load_keeps_lists_as_given_and_the_later_of_two() {
    let mut p = project(1, "P");
    p.tasks = vec![TaskId(11), TaskId(10)];
    let store = Repository::load(
        vec![tag(1, "a"), tag(2, "b"), tag(1, "c")],
        vec![p],
        vec![task(10, 1, "T1"), task(11, 1, "T2")],
    );
    assert_eq!(store.tag(&TagId(1)).unwrap().name, "c");
    assert_eq!(store.tag(&TagId(2)).unwrap().name, "b");
    assert_eq!(listed(&store, 1), vec![TaskId(11), TaskId(10)]);
    assert_eq!(store.task(&TaskId(10)).unwrap().name, "T1");
}

#[test]
fn from_id_hands_out_the_stored_entity() {
    let mut store = Repository::default();
    store.add_tag(tag(3, "x"));
    store.add_project(project(4, "P"));
    store.add_task(task(5, 4, "T"));
    assert_eq!(Tag::from_id(&TagId(3), &store).name, "x");
    assert_eq!(Project::from_id(&ProjectId(4), &store).tasks, vec![TaskId(5)]);
    assert_eq!(Task::from_id(&TaskId(5), &store).name, "T");
}

#[test]
fn identifiers_come_from_row_numbers_and_entities() {
    assert_eq!(TagId::from(7i64), TagId(7));
    assert_eq!(ProjectId::from(4_294_967_295i64), ProjectId(u32::MAX));
    assert_eq!(TaskId::from(4_294_967_296i64 + 5), TaskId(5));
    assert_eq!(TagId::from(&tag(9, "t")), TagId(9));
    assert_eq!(ProjectId::from(&project(8, "p")), ProjectId(8));
    assert_eq!(TaskId::from(&task(6, 8, "k")), TaskId(6));
}

#[test]
fn entries_offer_each_entity_once() {
    let mut store = Repository::default();
    store.add_tag(tag(1, "alpha"));
    store.add_tag(tag(2, "beta"));
    store.add_tag(tag(3, "alps"));
    store.add_project(project(1, "P"));
    store.add_project(project(2, "Q"));
    store.add_task(task(10, 1, "T1"));
    store.add_task(task(11, 2, "T2"));
    let mut projects: Vec<(u32, String)> =
        store.project_entries().into_iter().map(|e| (e.id.0, e.key)).collect();
    projects.sort();
    assert_eq!(projects, vec![(1, "P".to_string()), (2, "Q".to_string())]);
    let mut tags: Vec<(u32, String)> =
        store.tag_entries("al").into_iter().map(|e| (e.id.0, e.key)).collect();
    tags.sort();
    assert_eq!(tags, vec![(1, "alpha".to_string()), (3, "alps".to_string())]);
    let tasks: Vec<(u32, String)> = store
        .task_entries(store.project(&ProjectId(2)).unwrap())
        .into_iter()
        .map(|e| (e.id.0, e.key))
        .collect();
    assert_eq!(tasks, vec![(11, "T2".to_string())]);
}

#[test]
fn holds_tells_what_is_stored() {
    let mut store = Repository::default();
    store.add_tag(tag(3, "x"));
    store.add_project(project(4, "P"));
    store.add_task(task(5, 4, "T"));
    assert!(Tag::holds(&TagId(3), &store));
    assert!(!Tag::holds(&TagId(4), &store));
    assert!(Project::holds(&ProjectId(4), &store));
    assert!(!Project::holds(&ProjectId(5), &store));
    assert!(Task::holds(&TaskId(5), &store));
    assert!(!Task::holds(&TaskId(3), &store));
}

#[test]
fn clones_are_equal_in_every_field() {
    let mut p = project(4, "P");
    p.default_tags = vec![TagId(1)];
    p.tasks = vec![TaskId(2), TaskId(3)];
    let copy = p.clone();
    assert_eq!((copy.id, copy.name, copy.default_tags, copy.tasks), (p.id, p.name, p.default_tags, p.tasks));
    let t = task(5, 4, "T");
    let copy = t.clone();
    assert_eq!((copy.id, copy.project_id, copy.name, copy.tags), (t.id, t.project_id, t.name, t.tags));
    let g = tag(6, "G");
    let copy = g.clone();
    assert_eq!((copy.id, copy.name), (g.id, g.name));
}
