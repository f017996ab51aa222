//! Messages from servers: plain ones, shown at once, and requests that ask
//! the user to pick an action, queued until the user asks for the next one.

use vstd::prelude::*;
use std::collections::VecDeque;
use crate::strings::{decimal, push_char, push_decimal, push_str};
use crate::util::{editor_quote, editor_quote_spec};

verus! {

/// How grave a message is.
#[derive(Clone, Copy, Debug, PartialEq, Eq, Structural)]
pub enum MessageType {
    Error,
    Warning,
    Info,
    Log,
    /// A value that LSP does not define.
    Other(i32),
}

/// An action that a message request offers: its title, and the action
/// written as TOML (as it is handed back with the user's answer).
pub struct MessageAction {
    pub title: String,
    pub as_toml: String,
}

/// A message request of a server: its id (and the id written as TOML), its
/// type and message, and the actions it offers.
pub struct MessageRequest<I> {
    pub id: I,
    pub id_toml: String,
    pub typ: MessageType,
    pub message: String,
    pub actions: Option<Vec<MessageAction>>,
}

/// The command that shows a message of a type; none for a type that LSP
/// does not define.
pub open spec fn message_command(typ: MessageType) -> Option<Seq<char>> {
    match typ {
        MessageType::Error => Some("lsp-show-message-error"@),
        MessageType::Warning => Some("lsp-show-message-warning"@),
        MessageType::Info => Some("lsp-show-message-info"@),
        MessageType::Log => Some("lsp-show-message-log"@),
        MessageType::Other(_) => None,
    }
}

/// What shows a message: its command (or `nop`) and the quoted message.
pub open spec fn show_message_text(typ: MessageType, message: Seq<char>) -> Seq<char> {
    (match message_command(typ) {
        Some(c) => c,
        None => "nop"@,
    }) + seq![' '] + editor_quote_spec(message)
}

/// What the mode line shows of pending requests: a bell and their number, or
/// nothing when there are none.
pub open spec fn modeline_text(pending: nat) -> Seq<char> {
    "set-option global lsp_modeline_message_requests "@ + editor_quote_spec(
        if pending == 0 {
            Seq::empty()
        } else {
            seq!['\u{1F514}'] + decimal(pending)
        },
    )
}

/// The command that answers a request with an action.
pub open spec fn respond_text(id_toml: Seq<char>, action_toml: Seq<char>) -> Seq<char> {
    "lsp-show-message-request-respond "@ + editor_quote_spec(id_toml) + seq![' '] + editor_quote_spec(action_toml)
}

/// The menu entries of the actions: each title and the command that answers
/// with it, each quoted twice (the menu passes them on once more).
pub open spec fn action_entries(actions: Seq<MessageAction>, id_toml: Seq<char>) -> Seq<char>
    decreases actions.len(),
{
    if actions.len() == 0 {
        Seq::empty()
    } else {
        let a = actions.last();
        let entry = editor_quote_spec(editor_quote_spec(a.title@)) + seq![' '] + editor_quote_spec(
            editor_quote_spec(respond_text(id_toml, a.as_toml@)),
        );
        let rest = action_entries(actions.drop_last(), id_toml);
        if actions.len() == 1 {
            entry
        } else {
            rest + seq![' '] + entry
        }
    }
}

/// The command that shows a request with its actions, and what is run when
/// it is dismissed.
pub open spec fn request_menu_text(message: Seq<char>, id_toml: Seq<char>, actions: Seq<MessageAction>) -> Seq<char> {
    "lsp-show-message-request "@ + editor_quote_spec(message) + seq![' '] + editor_quote_spec(
        "%{lsp-show-message-request-respond "@ + editor_quote_spec(id_toml) + seq!['}'],
    ) + seq![' '] + action_entries(actions, id_toml)
}

/// What is done with the next pending request.
pub enum NextMessage<I> {
    /// None is pending: the error to show.
    NonePending { command: String },
    /// It offers no actions, so it is a plain message: the command that
    /// shows it; the request is to be answered with null.
    Plain { request: MessageRequest<I>, command: String },
    /// The menu of its actions, and the new mode line.
    Menu { request: MessageRequest<I>, command: String, modeline: String },
}

/// The pending message requests, oldest first.
pub struct PendingMessageRequests<I> {
    queue: VecDeque<MessageRequest<I>>,
}

impl<I> View for PendingMessageRequests<I> {
    type V = Seq<MessageRequest<I>>;

    closed spec fn view(&self) -> Seq<MessageRequest<I>> {
        self.queue@
    }
}

/// Whether a request offers any action.
pub open spec fn has_actions<I>(r: MessageRequest<I>) -> bool {
    r.actions matches Some(a) && a@.len() > 0
}

/// The command that shows a message; see `show_message_text`.
pub fn show_message(typ: MessageType, message: &str) -> (res: String)
    ensures
        res@ == show_message_text(typ, message@),
{
    let mut out = String::new();
    match typ {
        MessageType::Error => push_str(&mut out, "lsp-show-message-error"),
        MessageType::Warning => push_str(&mut out, "lsp-show-message-warning"),
        MessageType::Info => push_str(&mut out, "lsp-show-message-info"),
        MessageType::Log => push_str(&mut out, "lsp-show-message-log"),
        MessageType::Other(_) => push_str(&mut out, "nop"),
    }
    push_char(&mut out, ' ');
    let q = editor_quote(message);
    push_str(&mut out, q.as_str());
    assert(out@ =~= show_message_text(typ, message@));
    out
}

/// The mode line for a number of pending requests; see `modeline_text`.
pub fn modeline_command(pending: usize) -> (res: String)
    ensures
        res@ == modeline_text(pending as nat),
{
    let mut bell = String::new();
    if pending > 0 {
        push_char(&mut bell, '\u{1F514}');
        push_decimal(&mut bell, pending as u64);
    }
    let mut out = String::new();
    push_str(&mut out, "set-option global lsp_modeline_message_requests ");
    let q = editor_quote(bell.as_str());
    push_str(&mut out, q.as_str());
    assert(out@ =~= modeline_text(pending as nat));
    out
}

/// The menu of a request's actions; see `request_menu_text`.
pub fn message_request_menu(message: &str, id_toml: &str, actions: &Vec<MessageAction>) -> (res: String)
    ensures
        res@ == request_menu_text(message@, id_toml@, actions@),
{
    let rid = editor_quote(id_toml);
    let mut entries = String::new();
    let mut k: usize = 0;
    while k < actions.len()
        invariant
            k <= actions.len(),
            rid@ == editor_quote_spec(id_toml@),
            entries@ == action_entries(actions@.take(k as int), id_toml@),
        decreases actions.len() - k,
    {
        let a = &actions[k];
        let t1 = editor_quote(a.title.as_str());
        let t2 = editor_quote(t1.as_str());
        let mut respond = String::new();
        push_str(&mut respond, "lsp-show-message-request-respond ");
        push_str(&mut respond, rid.as_str());
        push_char(&mut respond, ' ');
        let qa = editor_quote(a.as_toml.as_str());
        push_str(&mut respond, qa.as_str());
        assert(respond@ =~= respond_text(id_toml@, a.as_toml@));
        let c1 = editor_quote(respond.as_str());
        let c2 = editor_quote(c1.as_str());
        if k > 0 {
            push_char(&mut entries, ' ');
        }
        push_str(&mut entries, t2.as_str());
        push_char(&mut entries, ' ');
        push_str(&mut entries, c2.as_str());
        proof {
            let next = actions@.take(k + 1);
            assert(next.drop_last() =~= actions@.take(k as int));
            assert(next.last() == *a);
        }
        assert(entries@ =~= action_entries(actions@.take(k + 1), id_toml@));
        k = k + 1;
    }
    assert(actions@.take(k as int) =~= actions@);
    let mut out = String::new();
    push_str(&mut out, "lsp-show-message-request ");
    let qm = editor_quote(message);
    push_str(&mut out, qm.as_str());
    push_char(&mut out, ' ');
    let mut dismiss = String::new();
    push_str(&mut dismiss, "%{lsp-show-message-request-respond ");
    push_str(&mut dismiss, rid.as_str());
    push_char(&mut dismiss, '}');
    assert(dismiss@ =~= "%{lsp-show-message-request-respond "@ + editor_quote_spec(id_toml@) + seq!['}']);
    let qd = editor_quote(dismiss.as_str());
    push_str(&mut out, qd.as_str());
    push_char(&mut out, ' ');
    push_str(&mut out, entries.as_str());
    assert(out@ =~= request_menu_text(message@, id_toml@, actions@));
    out
}

impl<I> PendingMessageRequests<I> {
    /// No pending requests.
    pub fn new() -> (res: PendingMessageRequests<I>)
        ensures
            res@ == Seq::<MessageRequest<I>>::empty(),
    {
        PendingMessageRequests { queue: VecDeque::new() }
    }

    /// The number of pending requests.
    pub fn len(&self) -> (res: usize)
        ensures
            res == self@.len(),
    {
        self.queue.len()
    }

    /// Queues a request; what the mode line then shows.
    pub fn push(&mut self, request: MessageRequest<I>) -> (res: String)
        ensures
            final(self)@ == old(self)@.push(request),
            res@ == modeline_text(final(self)@.len()),
    {
        self.queue.push_back(request);
        modeline_command(self.queue.len())
    }

    /// Takes the oldest pending request: a plain message when it offers no
    /// actions, else the menu of its actions and the new mode line.
    pub fn next(&mut self) -> (res: NextMessage<I>)
        ensures
            old(self)@.len() == 0 ==> final(self)@ == old(self)@ && (res matches NextMessage::NonePending { command }
                && command@ == "lsp-show-error 'No pending message requests.'"@),
            old(self)@.len() > 0 ==> final(self)@ == old(self)@.drop_first() && match res {
                NextMessage::NonePending { .. } => false,
                NextMessage::Plain { request, command } => request == old(self)@[0] && !has_actions(request)
                    && command@ == show_message_text(request.typ, request.message@),
                NextMessage::Menu { request, command, modeline } => request == old(self)@[0] && has_actions(request)
                    && command@ == request_menu_text(request.message@, request.id_toml@, request.actions.unwrap()@)
                    && modeline@ == modeline_text(final(self)@.len()),
            },
    {
        match self.queue.pop_front() {
            None => {
                let mut command = String::new();
                push_str(&mut command, "lsp-show-error 'No pending message requests.'");
                NextMessage::NonePending { command }
            },
            Some(request) => {
                proof {
                    assert(old(self)@.subrange(1, old(self)@.len() as int) =~= old(self)@.drop_first());
                }
                let offers = match &request.actions {
                    Some(a) => a.len() > 0,
                    None => false,
                };
                if offers {
                    let command = match &request.actions {
                        Some(a) => message_request_menu(request.message.as_str(), request.id_toml.as_str(), a),
                        None => String::new(),
                    };
                    let modeline = modeline_command(self.queue.len());
                    NextMessage::Menu { request, command, modeline }
                } else {
                    let command = show_message(request.typ, request.message.as_str());
                    NextMessage::Plain { request, command }
                }
            },
        }
    }
}

/// Requests are answered in the order in which they came: the oldest pending
/// request is taken first, and one that comes later waits behind all that
/// were pending.
pub proof fn lemma_requests_in_order<I>(pending: Seq<MessageRequest<I>>, r: MessageRequest<I>)
    ensures
        pending.len() > 0 ==> pending.push(r)[0] == pending[0] && pending.push(r).drop_first() == pending.drop_first().push(r),
        pending.push(r).skip(pending.len() as int) == seq![r],
{
    if pending.len() > 0 {
        assert(pending.push(r).drop_first() =~= pending.drop_first().push(r));
    }
    assert(pending.push(r).skip(pending.len() as int) =~= seq![r]);
}

} // verus!
