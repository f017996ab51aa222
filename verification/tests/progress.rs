use kak_lsp::progress::{ProgressBegin, ProgressEvent, ProgressIssue, ProgressToken, WorkDoneProgress};

fn begin(title: &str) -> ProgressEvent {
    ProgressEvent::Begin(ProgressBegin {
        title: title.to_string(),
        cancellable: None,
        message: None,
        percentage: None,
    })
}

const HEAD: &str = "set-option global lsp_progress_indicator [P]\nlsp-handle-progress ";

#[test]
fn progress_create_is_new_once() {
    let mut table = WorkDoneProgress::new();
    assert!(table.create(ProgressToken::Number(1)));
    assert!(!table.create(ProgressToken::Number(1)));
    assert!(table.contains(&ProgressToken::Number(1)));
    assert!(!table.contains(&ProgressToken::Text("1".to_string())));
}

#[test]
fn progress_begin_needs_created_token() {
    let mut table = WorkDoneProgress::new();
    let res = table.progress(&ProgressToken::Number(7), begin("Indexing"), false, "[P]");
    assert_eq!(res, Err(ProgressIssue::UnknownToken));
    assert!(!table.contains(&ProgressToken::Number(7)));
}

#[test]
fn progress_full_lifecycle() {
    let mut table = WorkDoneProgress::new();
    let token = ProgressToken::Number(1);
    table.create(token.clone());
    let res = table.progress(&token, begin("Indexing"), false, "[P]");
    assert_eq!(res, Ok(format!("{HEAD}1 Indexing false '' '' false")));
    let again = table.progress(&token, begin("Other"), false, "[P]");
    assert_eq!(again, Err(ProgressIssue::AlreadyStarted));
    let report = ProgressEvent::Report {
        cancellable: Some(true),
        message: Some("half way".to_string()),
        percentage: Some(50),
    };
    assert_eq!(table.progress(&token, report, true, "[P]"), Err(ProgressIssue::TooFast));
    let report = ProgressEvent::Report {
        cancellable: Some(true),
        message: Some("half way".to_string()),
        percentage: Some(50),
    };
    let res = table.progress(&token, report, false, "[P]");
    assert_eq!(res, Ok(format!("{HEAD}1 Indexing true 'half way' 50 false")));
    let end = ProgressEvent::End { message: Some("done".to_string()) };
    let res = table.progress(&token, end, false, "[P]");
    assert_eq!(res, Ok(format!("{HEAD}1 Indexing false done 100 true")));
    assert!(!table.contains(&token));
    let report = ProgressEvent::Report { cancellable: None, message: None, percentage: None };
    assert_eq!(table.progress(&token, report, false, "[P]"), Err(ProgressIssue::UnknownToken));
}

#[test]
fn progress_report_before_begin() {
    let mut table = WorkDoneProgress::new();
    let token = ProgressToken::Text("job".to_string());
    table.create(token.clone());
    let report = ProgressEvent::Report { cancellable: None, message: None, percentage: Some(3) };
    assert_eq!(table.progress(&token, report, false, "[P]"), Err(ProgressIssue::NotStarted));
    assert!(table.contains(&token));
}

#[test]
fn progress_end_before_begin_forgets_token() {
    let mut table = WorkDoneProgress::new();
    let token = ProgressToken::Number(-5);
    table.create(token.clone());
    let end = ProgressEvent::End { message: None };
    assert_eq!(table.progress(&token, end, false, "[P]"), Err(ProgressIssue::NotStarted));
    assert!(!table.contains(&token));
}

#[test]
fn progress_tokens_are_quoted() {
    let mut table = WorkDoneProgress::new();
    let text = ProgressToken::Text("rust analyzer/1".to_string());
    let number = ProgressToken::Number(-5);
    table.create(text.clone());
    table.create(number.clone());
    let res = table.progress(&text, begin("Loading crates"), false, "⌛");
    assert_eq!(
        res,
        Ok("set-option global lsp_progress_indicator ⌛\nlsp-handle-progress 'rust analyzer/1' 'Loading crates' false '' '' false".to_string())
    );
    let res = table.progress(&number, begin("x"), false, "[P]");
    assert_eq!(res, Ok(format!("{HEAD}-5 x false '' '' false")));
    assert!(table.contains(&text));
}
