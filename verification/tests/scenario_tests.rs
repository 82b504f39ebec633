use todoz::codec::{parse_tasks, render_tasks};
use todoz::command::{clear_if_confirmed, parse_line, Command};
use todoz::errors::TodoError;
use todoz::store::{add_task, del_task, toggle_task};
use todoz::task::Task;

#[test]
fn session_from_empty_store_to_cleared_list() {
    let mut tasks: Vec<Task> = Vec::new();

    match parse_line(b"add buy milk\n") {
        Command::Add(d) => {
            let id = add_task(&mut tasks, d);
            assert_eq!(id, 1);
        }
        _ => panic!("expected Add"),
    }
    assert_eq!(tasks.len(), 1);
    assert_eq!(tasks[0].id, 1);
    assert_eq!(tasks[0].description, b"buy milk".to_vec());
    assert!(!tasks[0].completed);

    match parse_line(b"add walk dog\n") {
        Command::Add(d) => {
            let id = add_task(&mut tasks, d);
            assert_eq!(id, 2);
        }
        _ => panic!("expected Add"),
    }
    assert_eq!(tasks.len(), 2);

    match parse_line(b"x 1\n") {
        Command::Toggle(id) => {
            assert_eq!(id, 1);
            toggle_task(&mut tasks, id).unwrap();
        }
        _ => panic!("expected Toggle"),
    }
    assert!(tasks[0].completed);

    match parse_line(b"rm 2\n") {
        Command::Remove(id) => {
            assert_eq!(id, 2);
            del_task(&mut tasks, id).unwrap();
        }
        _ => panic!("expected Remove"),
    }
    assert_eq!(tasks.len(), 1);
    assert_eq!(tasks[0].id, 1);

    assert!(matches!(parse_line(b"rm-all\n"), Command::RemoveAll));
    assert!(clear_if_confirmed(&mut tasks, b"y\n"));
    assert!(tasks.is_empty());
    assert_eq!(render_tasks(&tasks), b"[]".to_vec());
}

#[test]
fn toggling_on_an_empty_list_reports_not_found_and_changes_nothing() {
    let mut tasks: Vec<Task> = Vec::new();
    match parse_line(b"x 99\n") {
        Command::Toggle(id) => {
            assert_eq!(id, 99);
            assert_eq!(toggle_task(&mut tasks, id), Err(TodoError::NotFound(99)));
        }
        _ => panic!("expected Toggle"),
    }
    assert!(tasks.is_empty());
}

#[test]
fn a_session_survives_save_and_load() {
    let mut tasks: Vec<Task> = Vec::new();
    add_task(&mut tasks, b"one \"quoted\"".to_vec());
    add_task(&mut tasks, b"two\\slashed".to_vec());
    toggle_task(&mut tasks, 2).unwrap();

    let saved = render_tasks(&tasks);
    let mut loaded = parse_tasks(&saved).unwrap();

    assert_eq!(loaded.len(), 2);
    assert_eq!(loaded[0].id, 1);
    assert_eq!(loaded[0].description, b"one \"quoted\"".to_vec());
    assert!(!loaded[0].completed);
    assert_eq!(loaded[1].id, 2);
    assert!(loaded[1].completed);

    let id = add_task(&mut loaded, b"three".to_vec());
    assert_eq!(id, 3);
}
