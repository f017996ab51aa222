use kak_lsp::batches::{on_server_response, Batch, BatchAction, PendingRequests, ResponseOutcome, WaitEntry};

fn pending() -> PendingRequests<&'static str> {
    PendingRequests {
        waitlist: vec![
            WaitEntry { id: 1, batch: 7, canceled: false, code_action: false },
            WaitEntry { id: 2, batch: 7, canceled: false, code_action: false },
            WaitEntry { id: 3, batch: 8, canceled: true, code_action: false },
        ],
        batches: vec![Batch { id: 7, responses: vec![], sizes: vec![(0, 1), (1, 1)] }],
    }
}

fn failure() -> ResponseOutcome<&'static str> {
    ResponseOutcome::Failure { content_modified: false, method_not_found: true }
}

#[test]
fn a_batch_completes_once_every_server_answered() {
    let mut p = pending();
    assert!(matches!(on_server_response(&mut p, 0, 1, ResponseOutcome::Success("a")), BatchAction::Pending));
    assert_eq!(p.waitlist.len(), 2);
    match on_server_response(&mut p, 1, 2, ResponseOutcome::Success("b")) {
        BatchAction::Complete { batch, responses } => {
            assert_eq!(batch, 7);
            assert_eq!(responses, vec![(0, "a"), (1, "b")]);
        }
        _ => panic!("expected the batch to complete"),
    }
    assert!(p.batches.is_empty());
}

#[test]
fn a_failing_server_leaves_the_batch() {
    let mut p = pending();
    assert!(matches!(on_server_response(&mut p, 0, 1, ResponseOutcome::Success("a")), BatchAction::Pending));
    match on_server_response(&mut p, 1, 2, failure()) {
        BatchAction::Complete { responses, .. } => assert_eq!(responses, vec![(0, "a")]),
        _ => panic!("expected the others to complete the batch"),
    }
    let mut p = pending();
    assert!(matches!(on_server_response(&mut p, 0, 1, failure()), BatchAction::Pending));
    assert_eq!(p.batches[0].sizes, vec![(1, 1)]);
}

#[test]
fn failures_without_a_batch_left_are_reported() {
    let mut p = PendingRequests {
        waitlist: vec![
            WaitEntry { id: 1, batch: 7, canceled: false, code_action: false },
            WaitEntry { id: 2, batch: 9, canceled: false, code_action: true },
        ],
        batches: vec![Batch { id: 7, responses: vec![], sizes: vec![(0, 1)] }],
    };
    assert!(matches!(on_server_response(&mut p, 0, 1, failure()), BatchAction::ReportError { method_not_found: true }));
    assert!(p.batches.is_empty());
    assert!(matches!(on_server_response(&mut p, 0, 2, failure()), BatchAction::Silent));
    let modified: ResponseOutcome<&'static str> = ResponseOutcome::Failure { content_modified: true, method_not_found: false };
    let mut q = pending();
    assert!(matches!(on_server_response(&mut q, 0, 3, modified), BatchAction::Canceled));
    assert!(matches!(on_server_response(&mut q, 0, 42, ResponseOutcome::Success("x")), BatchAction::NotWaiting));
    assert_eq!(q.waitlist.len(), 2);
}

#[test]
fn a_request_is_answered_once() {
    let mut p = pending();
    assert!(matches!(on_server_response(&mut p, 0, 1, ResponseOutcome::Success("a")), BatchAction::Pending));
    assert!(matches!(on_server_response(&mut p, 0, 1, ResponseOutcome::Success("again")), BatchAction::NotWaiting));
    assert!(matches!(on_server_response(&mut p, 1, 1, failure()), BatchAction::NotWaiting));
}
