//! The call hierarchy of an item: its callers or callees, each with the
//! places where the calls happen, as a grep-like listing.

use vstd::prelude::*;
use crate::strings::{decimal, push_char, push_decimal, push_str};
use crate::types::KakounePosition;
use crate::util::{editor_quote, editor_quote_spec};

verus! {

/// A place in a file, shown with a text after it.
pub struct CallLocation {
    /// The file, as shown (relative to the project root when inside it).
    pub file: String,
    pub position: KakounePosition,
    pub text: String,
}

/// A caller or callee, with the places where the calls happen.
pub struct HierarchyCall {
    pub target: CallLocation,
    /// The call sites; their texts are the lines of the calls.
    pub callsites: Vec<CallLocation>,
}

/// A listing line: `prefix file:line:column: text` and a line feed.
pub open spec fn location_line(prefix: Seq<char>, file: Seq<char>, position: KakounePosition, text: Seq<char>) -> Seq<char> {
    prefix + file + ":"@ + decimal(position.line as nat) + ":"@ + decimal(position.column as nat) + ": "@ + text + "\n"@
}

/// A line without its line ending (`\r\n` or `\n`).
pub open spec fn strip_line_end(s: Seq<char>) -> Seq<char> {
    if s.len() >= 2 && s[s.len() - 2] == '\r' && s[s.len() - 1] == '\n' {
        s.take(s.len() - 2)
    } else if s.len() >= 1 && s[s.len() - 1] == '\n' {
        s.take(s.len() - 1)
    } else {
        s
    }
}

/// The lines of the call sites of a call, indented by four spaces.
pub open spec fn callsite_lines(sites: Seq<CallLocation>) -> Seq<char>
    decreases sites.len(),
{
    if sites.len() == 0 {
        Seq::empty()
    } else {
        let s = sites.last();
        callsite_lines(sites.drop_last()) + location_line("    "@, s.file@, s.position, strip_line_end(s.text@))
    }
}

/// The lines of calls: each caller or callee, indented by two spaces, then
/// its call sites.
pub open spec fn call_lines(calls: Seq<HierarchyCall>) -> Seq<char>
    decreases calls.len(),
{
    if calls.len() == 0 {
        Seq::empty()
    } else {
        let c = calls.last();
        call_lines(calls.drop_last()) + location_line("  "@, c.target.file@, c.target.position, c.target.text@)
            + callsite_lines(c.callsites@)
    }
}

/// The listing of an item's calls: the item, named with what is listed,
/// then its calls.
pub open spec fn hierarchy_listing(item: CallLocation, incoming: bool, calls: Seq<HierarchyCall>) -> Seq<char> {
    location_line(""@, item.file@, item.position, item.text@ + " - list of "@ + (if incoming { "callers"@ } else { "callees"@ }))
        + call_lines(calls)
}

/// The command that shows the listing of an item's calls.
pub open spec fn hierarchy_command(root: Seq<char>, item: CallLocation, incoming: bool, calls: Seq<HierarchyCall>) -> Seq<char> {
    (if incoming { "lsp-show-incoming-calls"@ } else { "lsp-show-outgoing-calls"@ }) + " "@ + editor_quote_spec(root)
        + " "@ + editor_quote_spec(hierarchy_listing(item, incoming, calls))
}

/// Appends a listing line; see `location_line`.
fn push_location_line(out: &mut String, prefix: &str, file: &str, position: KakounePosition, text: &str)
    ensures
        final(out)@ == old(out)@ + location_line(prefix@, file@, position, text@),
{
    let ghost start = out@;
    push_str(out, prefix);
    push_str(out, file);
    push_str(out, ":");
    push_decimal(out, position.line as u64);
    push_str(out, ":");
    push_decimal(out, position.column as u64);
    push_str(out, ": ");
    push_str(out, text);
    push_str(out, "\n");
    assert(out@ =~= start + location_line(prefix@, file@, position, text@));
}

/// A line without its line ending; see `strip_line_end`.
fn line_without_end(s: &str) -> (res: String)
    ensures
        res@ == strip_line_end(s@),
{
    let chars = crate::strings::chars_of(s);
    let n = chars.len();
    let keep = if n >= 2 && chars[n - 2] == '\r' && chars[n - 1] == '\n' {
        n - 2
    } else if n >= 1 && chars[n - 1] == '\n' {
        n - 1
    } else {
        n
    };
    let mut out = String::new();
    crate::markdown::push_chars(&mut out, &chars, 0, keep);
    assert(s@.subrange(0, keep as int) =~= strip_line_end(s@));
    out
}

/// Appends the lines of call sites; see `callsite_lines`.
fn push_callsite_lines(out: &mut String, sites: &Vec<CallLocation>)
    ensures
        final(out)@ == old(out)@ + callsite_lines(sites@),
{
    let ghost start = out@;
    let mut i: usize = 0;
    assert(sites@.take(0) =~= Seq::<CallLocation>::empty());
    while i < sites.len()
        invariant
            i <= sites@.len(),
            out@ == start + callsite_lines(sites@.take(i as int)),
        decreases sites.len() - i,
    {
        let s = &sites[i];
        let line = line_without_end(s.text.as_str());
        push_location_line(out, "    ", s.file.as_str(), s.position, line.as_str());
        proof {
            assert(sites@.take(i + 1).drop_last() =~= sites@.take(i as int));
            assert(sites@.take(i + 1).last() == sites@[i as int]);
            assert(out@ =~= start + callsite_lines(sites@.take(i + 1)));
        }
        i += 1;
    }
    assert(sites@.take(i as int) =~= sites@);
}

/// The listing of an item's calls; see `hierarchy_listing`.
pub fn call_hierarchy_listing(item: &CallLocation, incoming: bool, calls: &Vec<HierarchyCall>) -> (res: String)
    ensures
        res@ == hierarchy_listing(*item, incoming, calls@),
{
    let mut first = String::new();
    push_str(&mut first, item.text.as_str());
    push_str(&mut first, " - list of ");
    if incoming {
        push_str(&mut first, "callers");
    } else {
        push_str(&mut first, "callees");
    }
    let mut out = String::new();
    push_location_line(&mut out, "", item.file.as_str(), item.position, first.as_str());
    let ghost head = out@;
    let mut i: usize = 0;
    assert(calls@.take(0) =~= Seq::<HierarchyCall>::empty());
    while i < calls.len()
        invariant
            i <= calls@.len(),
            out@ == head + call_lines(calls@.take(i as int)),
        decreases calls.len() - i,
    {
        let c = &calls[i];
        push_location_line(&mut out, "  ", c.target.file.as_str(), c.target.position, c.target.text.as_str());
        push_callsite_lines(&mut out, &c.callsites);
        proof {
            assert(calls@.take(i + 1).drop_last() =~= calls@.take(i as int));
            assert(calls@.take(i + 1).last() == calls@[i as int]);
            assert(out@ =~= head + call_lines(calls@.take(i + 1)));
        }
        i += 1;
    }
    assert(calls@.take(i as int) =~= calls@);
    assert(out@ =~= hierarchy_listing(*item, incoming, calls@));
    out
}

/// The command that shows the listing of an item's callers (`incoming`) or
/// callees; see `hierarchy_command`.
pub fn format_call_hierarchy_calls(root_path: &str, item: &CallLocation, incoming: bool, calls: &Vec<HierarchyCall>) -> (res: String)
    ensures
        res@ == hierarchy_command(root_path@, *item, incoming, calls@),
{
    let mut out = String::new();
    if incoming {
        push_str(&mut out, "lsp-show-incoming-calls");
    } else {
        push_str(&mut out, "lsp-show-outgoing-calls");
    }
    push_char(&mut out, ' ');
    let qr = editor_quote(root_path);
    push_str(&mut out, qr.as_str());
    push_char(&mut out, ' ');
    let listing = call_hierarchy_listing(item, incoming, calls);
    let ql = editor_quote(listing.as_str());
    push_str(&mut out, ql.as_str());
    proof {
        reveal_strlit(" ");
    }
    assert(out@ =~= hierarchy_command(root_path@, *item, incoming, calls@));
    out
}

} // verus!
