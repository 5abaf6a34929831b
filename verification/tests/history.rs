use azva::history::{message_value, History, Role};
use azva::refine::{build_omlx_body, read_answer, read_response};
use serde_json::Value;

fn object(fields: Vec<(&str, Value)>) -> Value {
    let mut map = serde_json::Map::new();
    for (key, value) in fields {
        map.insert(key.to_string(), value);
    }
    Value::Object(map)
}

fn message(role: &str, content: &str) -> Value {
    object(vec![("role", Value::from(role)), ("content", Value::from(content))])
}

#[test]
fn append_user_then_build_messages_includes_system_and_window() {
    let mut h = History::new(40);
    let msgs = h.record_user_and_build("um the meeting tomorrow", "SYS");
    assert_eq!(msgs[0], message("system", "SYS"));
    assert_eq!(*msgs.last().unwrap(), message("user", "um the meeting tomorrow"));
    h.record_assistant("The meeting is tomorrow.");
    assert_eq!(h.len(), 2);
}

#[test]
fn history_is_bounded() {
    let mut h = History::new(4); // 2 turns max
    for (u, a) in [("one", "r1"), ("two", "r2"), ("three", "r3")] {
        h.record_user_and_build(u, "SYS");
        h.record_assistant(a);
    }
    assert_eq!(h.len(), 4);
    let contents: Vec<String> = h.iter_contents();
    assert!(!contents.contains(&"one".to_string())); // oldest dropped
    assert!(contents.contains(&"three".to_string()));
}

#[test]
fn history_holds_the_last_messages() {
    let mut h = History::new(3);
    assert!(h.is_empty());
    h.record_user_and_build("a", "SYS");
    h.record_assistant("b");
    h.record_user_and_build("c", "SYS");
    h.record_assistant("d");
    let msgs = h.record_user_and_build("e", "SYS");
    assert_eq!(
        msgs,
        vec![message("system", "SYS"), message("user", "c"), message("assistant", "d"), message("user", "e")]
    );
    assert_eq!(h.iter_contents(), vec!["c".to_string(), "d".to_string(), "e".to_string()]);
    h.clear();
    assert!(h.is_empty());
    assert_eq!(h.record_user_and_build("f", "S").len(), 2);
}

#[test]
fn history_without_room_keeps_nothing() {
    let mut h = History::new(0);
    assert_eq!(h.record_user_and_build("a", "SYS"), vec![message("system", "SYS")]);
    h.record_assistant("b");
    assert_eq!(h.len(), 0);
}

#[test]
fn messages_name_their_role() {
    assert_eq!(message_value(Role::Assistant, "\"q\"\n"), message("assistant", "\"q\"\n"));
}

#[test]
fn body_has_model_messages_temperature() {
    let msgs = vec![message("user", "hi")];
    let body = build_omlx_body(msgs.clone());
    assert_eq!(body["model"], azva::config::OMLX_MODEL);
    assert_eq!(body["messages"], Value::from(msgs));
    assert_eq!(body["temperature"], 0.3);
    assert_eq!(body.as_object().unwrap().len(), 3);
}

#[test]
fn reply_is_trimmed() {
    let body = "{\"choices\":[{\"message\":{\"role\":\"assistant\",\"content\":\" \\n The meeting is tomorrow.\\u00a0\\t\"}},{}]}";
    assert_eq!(read_response(body.as_bytes()), Ok("The meeting is tomorrow.".to_string()));
}

#[test]
fn answer_without_content_is_an_error() {
    let missing = Err("oMLX: missing choices[0].message.content".to_string());
    for body in [
        "null",
        "{}",
        "{\"choices\":[]}",
        "{\"choices\":{\"0\":{\"message\":{\"content\":\"x\"}}}}",
        "{\"choices\":[{\"message\":null}]}",
        "{\"choices\":[{\"message\":{\"content\":7}}]}",
    ] {
        assert_eq!(read_response(body.as_bytes()), missing);
    }
    assert_eq!(read_answer(&Value::Null), missing);
}

#[test]
fn body_that_is_no_json_is_an_error() {
    assert_eq!(
        read_response(b"<html>"),
        Err("oMLX json: error decoding response body".to_string())
    );
}

#[test]
fn answer_with_content_is_read() {
    let answer = object(vec![(
        "choices",
        Value::from(vec![object(vec![("message", message("assistant", "  Hi.  "))])]),
    )]);
    assert_eq!(read_answer(&answer), Ok("Hi.".to_string()));
}
