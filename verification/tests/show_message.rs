use kak_lsp::show_message::{
    message_request_menu, modeline_command, show_message, MessageAction, MessageRequest, MessageType, NextMessage,
    PendingMessageRequests,
};

fn action(title: &str) -> MessageAction {
    MessageAction { title: title.to_string(), as_toml: format!("title = \"{}\"", title) }
}

fn request(id: u32, message: &str, actions: Option<Vec<MessageAction>>) -> MessageRequest<u32> {
    MessageRequest { id, id_toml: id.to_string(), typ: MessageType::Warning, message: message.to_string(), actions }
}

#[test]
fn plain_messages() {
    assert_eq!(show_message(MessageType::Error, "it's bad"), "lsp-show-message-error 'it''s bad'");
    assert_eq!(show_message(MessageType::Log, "x"), "lsp-show-message-log x");
    assert_eq!(show_message(MessageType::Other(9), "x"), "nop x");
}

#[test]
fn modeline_counts_pending_requests() {
    assert_eq!(modeline_command(0), "set-option global lsp_modeline_message_requests ''");
    assert_eq!(modeline_command(2), "set-option global lsp_modeline_message_requests '🔔2'");
}

#[test]
fn message_request_menu_quotes_twice() {
    let menu = message_request_menu("Pick one", "1", &vec![action("Yes"), action("No way")]);
    assert_eq!(
        menu,
        "lsp-show-message-request 'Pick one' '%{lsp-show-message-request-respond 1}' Yes '''lsp-show-message-request-respond 1 ''''title = \"Yes\"''''''' '''No way''' '''lsp-show-message-request-respond 1 ''''title = \"No way\"'''''''"
    );
}

#[test]
fn message_requests_in_order() {
    let mut pending = PendingMessageRequests::new();
    assert_eq!(pending.push(request(1, "Pick one", Some(vec![action("Yes")]))), modeline_command(1));
    assert_eq!(pending.push(request(2, "Just so you know", Some(vec![]))), modeline_command(2));
    assert_eq!(pending.len(), 2);
    match pending.next() {
        NextMessage::Menu { request, command, modeline } => {
            assert_eq!(request.id, 1);
            assert_eq!(command, message_request_menu("Pick one", "1", &vec![action("Yes")]));
            assert_eq!(modeline, modeline_command(1));
        }
        _ => panic!("expected a menu"),
    }
    match pending.next() {
        NextMessage::Plain { request, command } => {
            assert_eq!(request.id, 2);
            assert_eq!(command, "lsp-show-message-warning 'Just so you know'");
        }
        _ => panic!("expected a plain message"),
    }
    match pending.next() {
        NextMessage::NonePending { command } => assert_eq!(command, "lsp-show-error 'No pending message requests.'"),
        _ => panic!("expected none"),
    }
    assert_eq!(pending.len(), 0);
}
