use http_lsp::{
    action_for, action_in, choose_output_directory, command_target, lenses_for, lenses_in,
    missing_document_message, output_directory, plan_send, request_at_line, send_request_command,
    Dispatch, DocumentStore,
};

const DOC: &str = "GET http://example.com/api/1\n\n###\n\nPOST http://example.com/api/2\nContent-Type: application/json\n\n{\"data\": \"value\"}";

fn store_with(uri: &str, text: &str) -> DocumentStore {
    let mut store = DocumentStore::new();
    store.open(uri.to_string(), text.to_string());
    store
}

#[test]
fn store_lifecycle() {
    let mut store = store_with("file:///a.http", "one");
    assert_eq!(store.get("file:///a.http").as_deref(), Some("one"));
    store.update("file:///a.http".to_string(), vec!["two".to_string(), "three".to_string()]);
    assert_eq!(store.get("file:///a.http").as_deref(), Some("two"));
    store.update("file:///a.http".to_string(), vec![]);
    assert_eq!(store.get("file:///a.http").as_deref(), Some("two"));
    store.open("file:///b.http".to_string(), "other".to_string());
    store.close("file:///a.http");
    assert_eq!(store.get("file:///a.http"), None);
    assert_eq!(store.get("file:///b.http").as_deref(), Some("other"));
    store.close("file:///missing.http");
    assert_eq!(store.get("file:///b.http").as_deref(), Some("other"));
}

#[test]
fn lenses_one_per_request() {
    let lenses = lenses_in(DOC);
    assert_eq!(lenses.len(), 2);
    assert_eq!(lenses[0].line, 0);
    assert_eq!(lenses[0].title, "Send GET Request");
    assert_eq!(lenses[1].line, 4);
    assert_eq!(lenses[1].title, "Send POST Request");
}

#[test]
fn lenses_for_unknown_document() {
    let store = store_with("file:///a.http", DOC);
    assert!(lenses_for(&store, "file:///b.http").is_none());
    assert_eq!(lenses_for(&store, "file:///a.http").map(|v| v.len()), Some(2));
}

#[test]
fn action_picks_closest_preceding_request() {
    let a = action_in(DOC, 3).expect("a request precedes line 3");
    assert_eq!(a.line, 0);
    assert_eq!(a.title, "Send GET Request");
    let b = action_in(DOC, 7).expect("a request precedes line 7");
    assert_eq!(b.line, 4);
    let c = action_in(DOC, 4).expect("a request stands on line 4");
    assert_eq!(c.line, 4);
}

#[test]
fn action_none_before_first_request() {
    assert!(action_in("\n\nGET http://example.com/x", 1).is_none());
    let store = store_with("file:///a.http", DOC);
    assert!(action_for(&store, "file:///nope.http", 3).is_none());
    assert_eq!(action_for(&store, "file:///a.http", 5).map(|a| a.line), Some(4));
}

#[test]
fn invocation_with_stale_line_does_nothing() {
    let store = store_with("file:///a.http", DOC);
    assert!(matches!(plan_send(store.get("file:///a.http").as_deref(), 3), Dispatch::NoRequest));
    assert!(matches!(plan_send(store.get("file:///a.http").as_deref(), 5), Dispatch::NoRequest));
    assert!(request_at_line(DOC, 1).is_none());
}

#[test]
fn invocation_on_exact_anchor_sends() {
    let store = store_with("file:///a.http", DOC);
    match plan_send(store.get("file:///a.http").as_deref(), 4) {
        Dispatch::Send(req) => {
            assert_eq!(req.method, "POST");
            assert_eq!(req.url, "http://example.com/api/2");
            assert_eq!(req.line_number, 4);
        }
        _ => panic!("expected the POST request"),
    }
}

#[test]
fn invocation_on_unknown_document() {
    let store = DocumentStore::new();
    assert!(matches!(plan_send(store.get("file:///a.http").as_deref(), 0), Dispatch::MissingDocument));
    assert_eq!(missing_document_message(), "Document not found");
}

#[test]
fn command_target_reads_arguments() {
    assert_eq!(send_request_command(), "http.sendRequest");
    assert_eq!(
        command_target("http.sendRequest", 2, Some("file:///a.http".to_string()), Some(4)),
        Some(("file:///a.http".to_string(), 4))
    );
    assert_eq!(command_target("http.sendRequest", 2, None, None), Some((String::new(), 0)));
    assert_eq!(command_target("http.sendRequest", 1, Some("x".to_string()), Some(1)), None);
    assert_eq!(command_target("other", 2, Some("x".to_string()), Some(1)), None);
}

#[test]
fn output_directory_prefers_test_then_src() {
    assert_eq!(output_directory("/home/u/proj/test/api/a.http").as_deref(), Some("/home/u/proj"));
    assert_eq!(output_directory("/home/u/proj/src/a.http").as_deref(), Some("/home/u/proj"));
    assert_eq!(
        output_directory("/p/test/x/src/a.http").as_deref(),
        Some("/p/test/x")
    );
    assert_eq!(output_directory("/p/src/x/test/a.http").as_deref(), Some("/p/src/x"));
    assert_eq!(output_directory("/test/src/a").as_deref(), Some("/test"));
    assert_eq!(output_directory("/test/x.http").as_deref(), Some("/"));
    assert_eq!(output_directory("/home/u/notes/a.http").as_deref(), Some("/home/u/notes"));
    assert_eq!(output_directory("relative/a.http"), None);
}

#[test]
fn output_directory_fallback_is_given_parent() {
    assert_eq!(
        choose_output_directory("/x/y.http", Some("/x".to_string())).as_deref(),
        Some("/x")
    );
    assert_eq!(choose_output_directory("/x/y.http", None), None);
    assert_eq!(choose_output_directory("x/y.http", Some("x".to_string())), None);
}
