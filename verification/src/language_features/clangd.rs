//! clangd's switch between a source file and its header.

use vstd::prelude::*;
use crate::strings::push_str;
use crate::util::{editor_quote, editor_quote_spec};

verus! {

/// The command that opens the file clangd names as the counterpart of the
/// current one, in the jump client.
pub open spec fn switch_command(uri: Seq<char>) -> Seq<char> {
    "evaluate-commands -try-client %opt{jumpclient} -verbatim -- edit -existing "@ + editor_quote_spec(uri)
}

/// The command that opens the counterpart clangd names, if it names one;
/// see `switch_command`.
pub fn switch_source_header(response: Option<&str>) -> (res: Option<String>)
    ensures
        match response {
            Some(u) => res matches Some(c) && c@ == switch_command(u@),
            None => res is None,
        },
{
    match response {
        Some(uri) => {
            let mut out = String::new();
            push_str(&mut out, "evaluate-commands -try-client %opt{jumpclient} -verbatim -- edit -existing ");
            let q = editor_quote(uri);
            push_str(&mut out, q.as_str());
            Some(out)
        },
        None => None,
    }
}

} // verus!
