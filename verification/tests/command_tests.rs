use todoz::command::{
    clear_if_confirmed, confirm_clear, next_state, parse_line, Command, LoopState,
};
use todoz::store::add_task;
use todoz::task::Task;

#[test]
fn empty_and_list_both_mean_list() {
    assert!(matches!(parse_line(b""), Command::List));
    assert!(matches!(parse_line(b"   \n"), Command::List));
    assert!(matches!(parse_line(b"list"), Command::List));
    assert!(matches!(parse_line(b"  list  \n"), Command::List));
    assert!(matches!(parse_line(b"list everything"), Command::List));
}

#[test]
fn add_keeps_everything_after_the_first_space() {
    match parse_line(b"add buy milk\n") {
        Command::Add(d) => assert_eq!(d, b"buy milk".to_vec()),
        other => panic!("expected Add, got {}", name_of(&other)),
    }
    match parse_line(b"  add   spaced out  ") {
        Command::Add(d) => assert_eq!(d, b"  spaced out".to_vec()),
        other => panic!("expected Add, got {}", name_of(&other)),
    }
}

#[test]
fn add_without_description_is_a_usage_hint() {
    assert!(matches!(parse_line(b"add"), Command::MissingDescription));
    assert!(matches!(parse_line(b"add   \n"), Command::MissingDescription));
}

#[test]
fn toggle_and_remove_parse_their_ids() {
    assert!(matches!(parse_line(b"x 1"), Command::Toggle(1)));
    assert!(matches!(parse_line(b"x 007"), Command::Toggle(7)));
    assert!(matches!(parse_line(b"rm 42\n"), Command::Remove(42)));
    assert!(matches!(
        parse_line(b"x 4294967295"),
        Command::Toggle(4294967295)
    ));
}

#[test]
fn missing_or_invalid_ids_are_usage_hints() {
    assert!(matches!(parse_line(b"x"), Command::MissingToggleId));
    assert!(matches!(parse_line(b"rm"), Command::MissingRemoveId));
    assert!(matches!(parse_line(b"x abc"), Command::InvalidToggleId));
    assert!(matches!(parse_line(b"x 1 2"), Command::InvalidToggleId));
    assert!(matches!(parse_line(b"rm 1a"), Command::InvalidRemoveId));
    assert!(matches!(
        parse_line(b"x 4294967296"),
        Command::InvalidToggleId
    ));
}

#[test]
fn fixed_commands_parse() {
    assert!(matches!(parse_line(b"help"), Command::Help));
    assert!(matches!(parse_line(b"help me"), Command::Help));
    assert!(matches!(parse_line(b"rm-all"), Command::RemoveAll));
    assert!(matches!(parse_line(b"pom"), Command::Pomodoro));
    assert!(matches!(parse_line(b"quit"), Command::Quit));
    assert!(matches!(parse_line(b"  quit  "), Command::Quit));
}

#[test]
fn quit_is_only_the_whole_line() {
    match parse_line(b"quit now") {
        Command::Unknown(w) => assert_eq!(w, b"quit".to_vec()),
        other => panic!("expected Unknown, got {}", name_of(&other)),
    }
}

#[test]
fn unrecognized_words_carry_the_word() {
    match parse_line(b"frobnicate the lawn") {
        Command::Unknown(w) => assert_eq!(w, b"frobnicate".to_vec()),
        other => panic!("expected Unknown, got {}", name_of(&other)),
    }
}

#[test]
fn confirmation_accepts_only_y_of_either_case() {
    assert!(confirm_clear(b"y"));
    assert!(confirm_clear(b"Y"));
    assert!(confirm_clear(b"  y \n"));
    assert!(!confirm_clear(b"yes"));
    assert!(!confirm_clear(b"n"));
    assert!(!confirm_clear(b""));
    assert!(!confirm_clear(b"  "));
    assert!(!confirm_clear(b"yy"));
}

#[test]
fn clear_happens_only_on_confirmation() {
    let mut tasks: Vec<Task> = Vec::new();
    add_task(&mut tasks, b"keep me".to_vec());
    assert!(!clear_if_confirmed(&mut tasks, b"no\n"));
    assert_eq!(tasks.len(), 1);
    assert_eq!(tasks[0].description, b"keep me".to_vec());
    assert!(clear_if_confirmed(&mut tasks, b"y\n"));
    assert!(tasks.is_empty());
}

#[test]
fn only_quit_terminates_the_loop() {
    assert!(matches!(
        next_state(&Command::Quit),
        LoopState::Terminated
    ));
    assert!(matches!(next_state(&Command::List), LoopState::Running));
    assert!(matches!(next_state(&Command::Help), LoopState::Running));
    assert!(matches!(
        next_state(&Command::Toggle(3)),
        LoopState::Running
    ));
    assert!(matches!(
        next_state(&Command::Unknown(b"eh".to_vec())),
        LoopState::Running
    ));
}

fn name_of(c: &Command) -> &'static str {
    match c {
        Command::List => "List",
        Command::Help => "Help",
        Command::Quit => "Quit",
        Command::Pomodoro => "Pomodoro",
        Command::RemoveAll => "RemoveAll",
        Command::Add(_) => "Add",
        Command::Toggle(_) => "Toggle",
        Command::Remove(_) => "Remove",
        Command::MissingDescription => "MissingDescription",
        Command::MissingToggleId => "MissingToggleId",
        Command::MissingRemoveId => "MissingRemoveId",
        Command::InvalidToggleId => "InvalidToggleId",
        Command::InvalidRemoveId => "InvalidRemoveId",
        Command::Unknown(_) => "Unknown",
    }
}
