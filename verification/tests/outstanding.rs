use kak_lsp::outstanding::{add_outstanding_request, remove_outstanding_request, OutstandingKey, OutstandingTable};

fn key(method: &str, client: Option<&str>) -> OutstandingKey {
    OutstandingKey {
        server: 1,
        method: method.to_string(),
        buffile: "/tmp/a.rs".to_string(),
        client: client.map(|c| c.to_string()),
    }
}

#[test]
fn third_request_cancels_the_youngest() {
    let mut table = OutstandingTable::new();
    assert_eq!(add_outstanding_request(&mut table, key("textDocument/hover", Some("c")), 1), None);
    assert_eq!(add_outstanding_request(&mut table, key("textDocument/hover", Some("c")), 2), None);
    assert_eq!(add_outstanding_request(&mut table, key("textDocument/hover", Some("c")), 3), Some(2));
    assert_eq!(table.len(), 1);
    let slot = table.slot(&key("textDocument/hover", Some("c"))).unwrap();
    assert_eq!(slot.oldest, Some(1));
    assert_eq!(slot.youngest, Some(3));
}

#[test]
fn keys_are_kept_apart() {
    let mut table = OutstandingTable::new();
    assert_eq!(add_outstanding_request(&mut table, key("textDocument/hover", Some("c")), 1), None);
    assert_eq!(add_outstanding_request(&mut table, key("textDocument/hover", None), 2), None);
    assert_eq!(add_outstanding_request(&mut table, key("textDocument/completion", Some("c")), 3), None);
    assert_eq!(table.len(), 3);
    assert!(table.slot(&key("textDocument/definition", None)).is_none());
}

#[test]
fn answers_remove_requests() {
    let mut table = OutstandingTable::new();
    add_outstanding_request(&mut table, key("m", None), 1);
    add_outstanding_request(&mut table, key("m", None), 2);
    // The oldest answers: the youngest takes its place.
    assert!(remove_outstanding_request(&mut table, key("m", None), 1));
    assert_eq!(table.slot(&key("m", None)).unwrap().oldest, Some(2));
    assert_eq!(table.slot(&key("m", None)).unwrap().youngest, None);
    // An id that is not outstanding, or a key with no entry.
    assert!(!remove_outstanding_request(&mut table, key("m", None), 7));
    assert!(!remove_outstanding_request(&mut table, key("other", None), 2));
    assert!(remove_outstanding_request(&mut table, key("m", None), 2));
    assert_eq!(table.slot(&key("m", None)).unwrap().oldest, None);
    // A fresh request after both answered becomes the oldest again.
    assert_eq!(add_outstanding_request(&mut table, key("m", None), 4), None);
    assert_eq!(table.slot(&key("m", None)).unwrap().oldest, Some(4));
    assert_eq!(table.len(), 1);
}
