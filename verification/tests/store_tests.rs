use todoz::errors::TodoError;
use todoz::store::{
    add_task, clear_all_tasks, completed_count, del_task, highest_id, progress_percent,
    toggle_task,
};
use todoz::task::Task;

fn descr(text: &str) -> Vec<u8> {
    text.as_bytes().to_vec()
}

#[test]
fn add_assigns_one_on_empty_list() {
    let mut tasks: Vec<Task> = Vec::new();
    let id = add_task(&mut tasks, descr("buy milk"));
    assert_eq!(id, 1);
    assert_eq!(tasks.len(), 1);
    assert_eq!(tasks[0].id, 1);
    assert_eq!(tasks[0].description, descr("buy milk"));
    assert!(!tasks[0].completed);
}

#[test]
fn add_ids_strictly_increase() {
    let mut tasks: Vec<Task> = Vec::new();
    let mut last: u32 = 0;
    for k in 0..10 {
        let id = add_task(&mut tasks, descr(&format!("task {}", k)));
        assert!(id > last);
        assert_eq!(id, last + 1);
        last = id;
    }
}

#[test]
fn add_after_removing_the_max_takes_current_max_plus_one() {
    let mut tasks: Vec<Task> = Vec::new();
    add_task(&mut tasks, descr("first"));
    add_task(&mut tasks, descr("second"));
    del_task(&mut tasks, 2).unwrap();
    let id = add_task(&mut tasks, descr("third"));
    assert_eq!(id, 2);
    let ids: Vec<u32> = tasks.iter().map(|t| t.id).collect();
    assert_eq!(ids, vec![1, 2]);
}

#[test]
fn add_after_removing_lower_id_continues_from_max() {
    let mut tasks: Vec<Task> = Vec::new();
    add_task(&mut tasks, descr("first"));
    add_task(&mut tasks, descr("second"));
    del_task(&mut tasks, 1).unwrap();
    let id = add_task(&mut tasks, descr("third"));
    assert_eq!(id, 3);
    let ids: Vec<u32> = tasks.iter().map(|t| t.id).collect();
    assert_eq!(ids, vec![2, 3]);
}

#[test]
fn toggle_flips_and_toggle_again_restores() {
    let mut tasks: Vec<Task> = Vec::new();
    add_task(&mut tasks, descr("water plants"));
    assert!(!tasks[0].completed);
    toggle_task(&mut tasks, 1).unwrap();
    assert!(tasks[0].completed);
    toggle_task(&mut tasks, 1).unwrap();
    assert!(!tasks[0].completed);
    assert_eq!(tasks[0].description, descr("water plants"));
    assert_eq!(tasks[0].id, 1);
}

#[test]
fn toggle_unknown_id_reports_not_found() {
    let mut tasks: Vec<Task> = Vec::new();
    let r = toggle_task(&mut tasks, 99);
    assert_eq!(r, Err(TodoError::NotFound(99)));
    assert!(tasks.is_empty());
}

#[test]
fn toggle_unknown_id_leaves_other_tasks_alone() {
    let mut tasks: Vec<Task> = Vec::new();
    add_task(&mut tasks, descr("one"));
    let r = toggle_task(&mut tasks, 7);
    assert_eq!(r, Err(TodoError::NotFound(7)));
    assert_eq!(tasks.len(), 1);
    assert!(!tasks[0].completed);
}

#[test]
fn remove_keeps_order_of_the_rest() {
    let mut tasks: Vec<Task> = Vec::new();
    add_task(&mut tasks, descr("a"));
    add_task(&mut tasks, descr("b"));
    add_task(&mut tasks, descr("c"));
    del_task(&mut tasks, 2).unwrap();
    let ids: Vec<u32> = tasks.iter().map(|t| t.id).collect();
    assert_eq!(ids, vec![1, 3]);
    assert_eq!(tasks[0].description, descr("a"));
    assert_eq!(tasks[1].description, descr("c"));
}

#[test]
fn remove_twice_reports_not_found_the_second_time() {
    let mut tasks: Vec<Task> = Vec::new();
    add_task(&mut tasks, descr("a"));
    add_task(&mut tasks, descr("b"));
    assert_eq!(del_task(&mut tasks, 1), Ok(()));
    assert_eq!(del_task(&mut tasks, 1), Err(TodoError::NotFound(1)));
    let ids: Vec<u32> = tasks.iter().map(|t| t.id).collect();
    assert_eq!(ids, vec![2]);
}

#[test]
fn clear_empties_the_list() {
    let mut tasks: Vec<Task> = Vec::new();
    add_task(&mut tasks, descr("a"));
    add_task(&mut tasks, descr("b"));
    clear_all_tasks(&mut tasks);
    assert!(tasks.is_empty());
}

#[test]
fn highest_id_is_zero_on_empty_and_max_otherwise() {
    let mut tasks: Vec<Task> = Vec::new();
    assert_eq!(highest_id(&tasks), 0);
    add_task(&mut tasks, descr("a"));
    add_task(&mut tasks, descr("b"));
    add_task(&mut tasks, descr("c"));
    del_task(&mut tasks, 3).unwrap();
    assert_eq!(highest_id(&tasks), 2);
}

#[test]
fn completed_count_and_progress() {
    let mut tasks: Vec<Task> = Vec::new();
    assert_eq!(progress_percent(&tasks), 0);
    add_task(&mut tasks, descr("a"));
    add_task(&mut tasks, descr("b"));
    add_task(&mut tasks, descr("c"));
    assert_eq!(completed_count(&tasks), 0);
    assert_eq!(progress_percent(&tasks), 0);
    toggle_task(&mut tasks, 1).unwrap();
    assert_eq!(completed_count(&tasks), 1);
    assert_eq!(progress_percent(&tasks), 33);
    toggle_task(&mut tasks, 2).unwrap();
    toggle_task(&mut tasks, 3).unwrap();
    assert_eq!(completed_count(&tasks), 3);
    assert_eq!(progress_percent(&tasks), 100);
}

#[test]
fn format_id_pads_below_ten() {
    assert_eq!(todoz::task::format_id(5), b"05".to_vec());
    assert_eq!(todoz::task::format_id(0), b"00".to_vec());
    assert_eq!(todoz::task::format_id(10), b"10".to_vec());
    assert_eq!(todoz::task::format_id(123), b"123".to_vec());
}
