use todoz::codec::{parse_tasks, render_tasks};
use todoz::errors::TodoError;
use todoz::task::Task;

fn task(id: u32, text: &str, completed: bool) -> Task {
    Task { id, description: text.as_bytes().to_vec(), completed }
}

fn assert_round_trip(tasks: &Vec<Task>) {
    let bytes = render_tasks(tasks);
    let back = parse_tasks(&bytes).expect("rendered document must parse");
    assert_eq!(back.len(), tasks.len());
    for (a, b) in tasks.iter().zip(back.iter()) {
        assert_eq!(a.id, b.id);
        assert_eq!(a.description, b.description);
        assert_eq!(a.completed, b.completed);
    }
}

#[test]
fn empty_list_renders_as_empty_array() {
    let tasks: Vec<Task> = Vec::new();
    assert_eq!(render_tasks(&tasks), b"[]".to_vec());
}

#[test]
fn one_task_renders_pretty() {
    let tasks = vec![task(1, "buy milk", false)];
    let expected = "[\n  {\n    \"id\": 1,\n    \"description\": \"buy milk\",\n    \"completed\": false\n  }\n]";
    assert_eq!(render_tasks(&tasks), expected.as_bytes().to_vec());
}

#[test]
fn two_tasks_render_comma_separated() {
    let tasks = vec![task(1, "a", true), task(12, "b", false)];
    let expected = "[\n  {\n    \"id\": 1,\n    \"description\": \"a\",\n    \"completed\": true\n  },\n  {\n    \"id\": 12,\n    \"description\": \"b\",\n    \"completed\": false\n  }\n]";
    assert_eq!(render_tasks(&tasks), expected.as_bytes().to_vec());
}

#[test]
fn round_trip_plain_lists() {
    assert_round_trip(&Vec::new());
    assert_round_trip(&vec![task(1, "buy milk", false)]);
    assert_round_trip(&vec![
        task(1, "walk dog", true),
        task(2, "water plants", false),
        task(4294967295, "a task with the largest id", true),
    ]);
}

#[test]
fn round_trip_descriptions_that_need_escaping() {
    assert_round_trip(&vec![
        task(1, "say \"hello\"", false),
        task(2, "path\\with\\backslashes", true),
        task(3, "line\nbreak and\ttab", false),
        task(4, "control\u{1}byte", false),
        task(5, "unicode – dash, naïve café 🎉", true),
    ]);
}

#[test]
fn parse_accepts_short_escapes() {
    let doc = "[\n  {\n    \"id\": 7,\n    \"description\": \"a\\tb\\nc\\\"d\\\\e\\/f\\bg\\rh\\fi\",\n    \"completed\": false\n  }\n]";
    let tasks = parse_tasks(doc.as_bytes()).unwrap();
    assert_eq!(tasks.len(), 1);
    assert_eq!(tasks[0].id, 7);
    assert_eq!(
        tasks[0].description,
        b"a\tb\nc\"d\\e/f\x08g\rh\x0ci".to_vec()
    );
}

#[test]
fn parse_accepts_unicode_escapes_below_128() {
    let doc = "[\n  {\n    \"id\": 1,\n    \"description\": \"\\u0041\\u000a\\u007F\",\n    \"completed\": true\n  }\n]";
    let tasks = parse_tasks(doc.as_bytes()).unwrap();
    assert_eq!(tasks[0].description, b"A\n\x7f".to_vec());
    assert!(tasks[0].completed);
}

#[test]
fn parse_accepts_trailing_whitespace() {
    let tasks = parse_tasks(b"[]\n").unwrap();
    assert!(tasks.is_empty());
    let doc = "[\n  {\n    \"id\": 1,\n    \"description\": \"x\",\n    \"completed\": false\n  }\n]\n  \t\r\n";
    let tasks = parse_tasks(doc.as_bytes()).unwrap();
    assert_eq!(tasks.len(), 1);
}

#[test]
fn malformed_documents_are_parse_failures() {
    let bad: [&[u8]; 10] = [
        b"",
        b"garbage",
        b"[",
        b"[]x",
        b"[\n]",
        b"{\"id\": 1}",
        b"[\n  {\n    \"id\": x,\n    \"description\": \"a\",\n    \"completed\": false\n  }\n]",
        b"[\n  {\n    \"id\": 1,\n    \"description\": \"a\",\n    \"completed\": maybe\n  }\n]",
        b"[\n  {\n    \"id\": 1,\n    \"description\": \"a\",\n    \"completed\": false\n  }\n] extra",
        b"[\n  {\n    \"id\": 1,\n    \"description\": \"unterminated,\n    \"completed\": false\n  }\n]",
    ];
    for doc in bad.iter() {
        assert_eq!(parse_tasks(doc), Err(TodoError::ParseFailure));
    }
}

#[test]
fn id_too_large_for_u32_is_a_parse_failure() {
    let doc = "[\n  {\n    \"id\": 4294967296,\n    \"description\": \"a\",\n    \"completed\": false\n  }\n]";
    assert_eq!(parse_tasks(doc.as_bytes()), Err(TodoError::ParseFailure));
}

#[test]
fn unicode_escape_of_multibyte_code_point_is_refused() {
    let doc = "[\n  {\n    \"id\": 1,\n    \"description\": \"\\u00e9\",\n    \"completed\": false\n  }\n]";
    assert_eq!(parse_tasks(doc.as_bytes()), Err(TodoError::ParseFailure));
}

#[test]
fn raw_control_byte_in_string_is_refused() {
    let doc = b"[\n  {\n    \"id\": 1,\n    \"description\": \"a\x01b\",\n    \"completed\": false\n  }\n]";
    assert_eq!(parse_tasks(doc), Err(TodoError::ParseFailure));
}

#[test]
fn rendered_documents_are_valid_json_to_serde() {
    let tasks = vec![
        task(1, "say \"hello\"\\now\n", false),
        task(23, "plain", true),
    ];
    let bytes = render_tasks(&tasks);
    let text = String::from_utf8(bytes).expect("rendered document is UTF-8");
    let value: serde_json::Value = serde_json::from_str(&text).expect("valid JSON");
    let arr = value.as_array().expect("an array");
    assert_eq!(arr.len(), 2);
    assert_eq!(arr[0]["id"], serde_json::Value::from(1u32));
    assert_eq!(arr[0]["description"].as_str().unwrap(), "say \"hello\"\\now\n");
    assert_eq!(arr[0]["completed"].as_bool().unwrap(), false);
    assert_eq!(arr[1]["id"], serde_json::Value::from(23u32));
    assert_eq!(arr[1]["completed"].as_bool().unwrap(), true);
}

#[test]
fn malformed_store_falls_back_to_empty_list() {
    // What the interface does at startup with a malformed store file: the
    // parse failure is reported and an empty list takes its place.
    let loaded = match parse_tasks(b"{ not the document grammar }") {
        Ok(tasks) => tasks,
        Err(TodoError::ParseFailure) => Vec::new(),
        Err(other) => panic!("unexpected error {:?}", other),
    };
    assert!(loaded.is_empty());
}
