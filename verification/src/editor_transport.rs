//! What is sent to the editor: a command addressed to the client that asked,
//! and the way errors are shown.

use vstd::prelude::*;
use crate::strings::{push_str, str_eq};
use crate::util::{editor_quote, editor_quote_spec};

verus! {

/// The command sent to the editor session for a response: run in the
/// response's client where it names one, else as it is.
pub open spec fn addressed_command_of(client: Option<Seq<char>>, command: Seq<char>) -> Seq<char> {
    match client {
        Some(c) => if c.len() > 0 {
            "evaluate-commands -client "@ + c + " -verbatim -- "@ + command
        } else {
            command
        },
        None => command,
    }
}

/// See `addressed_command_of`.
pub fn addressed_command(client: &Option<String>, command: &str) -> (res: String)
    ensures
        res@ == addressed_command_of(
            match client {
                Some(c) => Some(c@),
                None => None,
            },
            command@,
        ),
{
    match client {
        Some(c) => {
            proof {
                reveal_strlit("");
                if c@.len() == 0 {
                    assert(c@ =~= ""@);
                }
            }
            if str_eq(c.as_str(), "") {
                return command.to_string();
            }
            let mut out = String::new();
            push_str(&mut out, "evaluate-commands -client ");
            push_str(&mut out, c.as_str());
            push_str(&mut out, " -verbatim -- ");
            push_str(&mut out, command);
            out
        },
        None => command.to_string(),
    }
}

/// The command that shows an error `message`, or `None` where it is only
/// logged: in a hook, unless the editor waits for an answer (`sync`). An
/// editor that waits gets a failure it can catch with `try`; otherwise the
/// error is shown to the user.
pub open spec fn show_error_of(hook: bool, sync: bool, message: Seq<char>) -> Option<Seq<char>> {
    if hook && !sync {
        None
    } else if sync {
        Some("fail -- "@ + editor_quote_spec(message))
    } else {
        Some("lsp-show-error "@ + editor_quote_spec(message))
    }
}

/// See `show_error_of`.
pub fn show_error(hook: bool, sync: bool, message: &str) -> (res: Option<String>)
    ensures
        match res {
            Some(c) => show_error_of(hook, sync, message@) == Some(c@),
            None => show_error_of(hook, sync, message@) is None,
        },
{
    if hook && !sync {
        return None;
    }
    let mut out = String::new();
    if sync {
        push_str(&mut out, "fail -- ");
    } else {
        push_str(&mut out, "lsp-show-error ");
    }
    let q = editor_quote(message);
    push_str(&mut out, q.as_str());
    Some(out)
}

} // verus!
