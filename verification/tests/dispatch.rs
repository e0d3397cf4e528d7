use serde_json::Value;
use veil_lsp::dispatch::{route, same_text, Request};

fn message(text: &str) -> Value {
    serde_json::from_str(text).unwrap()
}

fn check_of(text: &str) -> (String, String) {
    match route(&message(text)) {
        Request::Check { uri, text } => (uri, text),
        _ => panic!("no check"),
    }
}

fn id_of(text: &str) -> Value {
    match route(&message(text)) {
        Request::Initialize { id } => id,
        _ => panic!("no initialize"),
    }
}

fn is_ignored(text: &str) -> bool {
    matches!(route(&message(text)), Request::Ignored)
}

#[test]
fn initialize_keeps_the_id() {
    assert_eq!(id_of(r#"{"jsonrpc":"2.0","id":7,"method":"initialize","params":{}}"#), message("7"));
    assert_eq!(id_of(r#"{"id":"abc","method":"initialize"}"#), message("\"abc\""));
    assert_eq!(id_of(r#"{"id":null,"method":"initialize"}"#), Value::Null);
    assert_eq!(id_of(r#"{"id":-3,"method":"initialize"}"#), message("-3"));
    assert_eq!(id_of(r#"{"id":1.5,"method":"initialize"}"#), message("1.5"));
    assert_eq!(id_of(r#"{"id":[1,{"a":2}],"method":"initialize"}"#), message(r#"[1,{"a":2}]"#));
}

#[test]
fn initialize_without_id_is_answered_under_one() {
    assert_eq!(id_of(r#"{"jsonrpc":"2.0","method":"initialize"}"#), message("1"));
}

#[test]
fn did_open_brings_text() {
    let (uri, text) = check_of(
        r#"{"method":"textDocument/didOpen","params":{"textDocument":{"uri":"file:///a.veil","text":"let x = 1\n"}}}"#,
    );
    assert_eq!(uri, "file:///a.veil");
    assert_eq!(text, "let x = 1\n");
}

#[test]
fn did_change_brings_new_text() {
    let (uri, text) = check_of(
        r#"{"method":"textDocument/didChange","params":{"textDocument":{"uri":"file:///a.veil","newText":"let y = 2"}}}"#,
    );
    assert_eq!(uri, "file:///a.veil");
    assert_eq!(text, "let y = 2");
}

#[test]
fn each_method_reads_its_own_field() {
    let (_, text) = check_of(
        r#"{"method":"textDocument/didOpen","params":{"textDocument":{"text":"old","newText":"new"}}}"#,
    );
    assert_eq!(text, "old");
    let (_, text) = check_of(
        r#"{"method":"textDocument/didChange","params":{"textDocument":{"text":"old","newText":"new"}}}"#,
    );
    assert_eq!(text, "new");
    let (_, text) = check_of(
        r#"{"method":"textDocument/didOpen","params":{"textDocument":{"newText":"new"}}}"#,
    );
    assert_eq!(text, "");
    let (_, text) = check_of(
        r#"{"method":"textDocument/didChange","params":{"textDocument":{"text":"old"}}}"#,
    );
    assert_eq!(text, "");
}

#[test]
fn missing_fields_have_defaults() {
    assert_eq!(
        check_of(r#"{"method":"textDocument/didOpen","params":{}}"#),
        ("file:///main.veil".to_string(), String::new())
    );
    assert_eq!(
        check_of(r#"{"method":"textDocument/didOpen","params":{"textDocument":{}}}"#),
        ("file:///main.veil".to_string(), String::new())
    );
    assert_eq!(
        check_of(r#"{"method":"textDocument/didChange","params":{"textDocument":{"uri":"u"}}}"#),
        ("u".to_string(), String::new())
    );
    assert_eq!(
        check_of(r#"{"method":"textDocument/didOpen","params":{"textDocument":{"text":"t"}}}"#),
        ("file:///main.veil".to_string(), "t".to_string())
    );
    assert_eq!(
        check_of(r#"{"method":"textDocument/didOpen","params":null}"#),
        ("file:///main.veil".to_string(), String::new())
    );
    assert_eq!(
        check_of(r#"{"method":"textDocument/didOpen","params":{"textDocument":"x"}}"#),
        ("file:///main.veil".to_string(), String::new())
    );
}

#[test]
fn fields_that_are_no_text_have_defaults() {
    assert_eq!(
        check_of(
            r#"{"method":"textDocument/didOpen","params":{"textDocument":{"uri":5,"text":["a"]}}}"#
        ),
        ("file:///main.veil".to_string(), String::new())
    );
}

#[test]
fn document_message_without_params_is_ignored() {
    assert!(is_ignored(r#"{"method":"textDocument/didOpen"}"#));
    assert!(is_ignored(r#"{"method":"textDocument/didChange","id":3}"#));
}

#[test]
fn other_methods_are_ignored() {
    assert!(is_ignored(r#"{"jsonrpc":"2.0","id":2,"method":"foo/bar","params":{}}"#));
    assert!(is_ignored(r#"{"method":"shutdown","id":3}"#));
    assert!(is_ignored(r#"{"method":"exit"}"#));
    assert!(is_ignored(r#"{"method":"Initialize","id":3}"#));
    assert!(is_ignored(r#"{"method":"initialize ","id":3}"#));
    assert!(is_ignored(r#"{"method":"textDocument/didopen","params":{}}"#));
    assert!(is_ignored(r#"{"method":"textDocument/didClose","params":{}}"#));
    assert!(is_ignored(r#"{"method":""}"#));
}

#[test]
fn message_without_a_method_is_ignored() {
    assert!(is_ignored(r#"{"jsonrpc":"2.0","id":1,"result":{}}"#));
    assert!(is_ignored(r#"{}"#));
    assert!(is_ignored(r#"{"method":5,"id":1}"#));
    assert!(is_ignored(r#"{"method":null}"#));
    assert!(is_ignored(r#"{"method":["initialize"]}"#));
    assert!(is_ignored(r#"[1,2]"#));
    assert!(is_ignored(r#""initialize""#));
    assert!(is_ignored("null"));
    assert!(is_ignored("12"));
}

#[test]
fn texts_are_compared_in_full() {
    assert!(same_text("", ""));
    assert!(same_text("initialize", "initialize"));
    assert!(same_text("héllo", "héllo"));
    assert!(!same_text("initialize", "initialized"));
    assert!(!same_text("initialize", "initialise"));
    assert!(!same_text("a", ""));
    assert!(!same_text("é", "e"));
}
