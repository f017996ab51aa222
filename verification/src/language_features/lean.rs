//! Lean's goals: the goals (or the goal of the term) at the cursor, shown in
//! a scratch buffer.

use vstd::prelude::*;
use crate::strings::push_str;
use crate::util::{editor_quote, editor_quote_spec};

verus! {

/// The texts that the servers answered, one after the other; a server that
/// answered nothing adds nothing.
pub open spec fn rendered_goals(answers: Seq<Option<String>>) -> Seq<char>
    decreases answers.len(),
{
    if answers.len() == 0 {
        Seq::empty()
    } else {
        rendered_goals(answers.drop_last()) + match answers.last() {
            Some(s) => s@,
            None => Seq::empty(),
        }
    }
}

/// The commands that show the goals in a scratch buffer of the given name.
pub open spec fn goals_buffer_text(buffer: Seq<char>, rendered: Seq<char>, indent: Seq<char>) -> Seq<char> {
    indent + "edit -scratch -- "@ + editor_quote_spec(buffer) + seq!['\n'] + indent + "set-option buffer filetype lean-goals\n"@
        + indent + "set-register a "@ + editor_quote_spec(rendered) + seq!['\n'] + indent
        + "execute-keys -draft '%c<c-r>a<esc>gg'\n"@
}

/// What shows the goals at the cursor.
pub open spec fn plain_goal_text(buffer: Seq<char>, rendered: Seq<char>) -> Seq<char> {
    "evaluate-commands -save-regs a "@ + editor_quote_spec(goals_buffer_text(buffer, rendered, Seq::empty()))
}

/// What shows the goal of the term at the cursor.
pub open spec fn plain_term_goal_text(buffer: Seq<char>, rendered: Seq<char>) -> Seq<char> {
    "evaluate-commands -save-regs a %<\n"@ + goals_buffer_text(buffer, rendered, "    "@) + ">\n"@
}

/// The answers' texts, one after the other; see `rendered_goals`.
fn render(answers: &Vec<Option<String>>) -> (res: String)
    ensures
        res@ == rendered_goals(answers@),
{
    let mut out = String::new();
    let mut k: usize = 0;
    while k < answers.len()
        invariant
            k <= answers.len(),
            out@ == rendered_goals(answers@.take(k as int)),
        decreases answers.len() - k,
    {
        assert(answers@.take(k + 1).drop_last() =~= answers@.take(k as int));
        match &answers[k] {
            Some(s) => push_str(&mut out, s.as_str()),
            None => {},
        }
        assert(out@ =~= rendered_goals(answers@.take(k + 1)));
        k = k + 1;
    }
    assert(answers@.take(k as int) =~= answers@);
    out
}

/// The commands that show the goals; see `goals_buffer_text`.
fn goals_buffer(buffer: &str, rendered: &str, indent: &str) -> (res: String)
    ensures
        res@ == goals_buffer_text(buffer@, rendered@, indent@),
{
    let mut out = String::new();
    push_str(&mut out, indent);
    push_str(&mut out, "edit -scratch -- ");
    let b = editor_quote(buffer);
    push_str(&mut out, b.as_str());
    push_str(&mut out, "\n");
    push_str(&mut out, indent);
    push_str(&mut out, "set-option buffer filetype lean-goals\n");
    push_str(&mut out, indent);
    push_str(&mut out, "set-register a ");
    let r = editor_quote(rendered);
    push_str(&mut out, r.as_str());
    push_str(&mut out, "\n");
    push_str(&mut out, indent);
    push_str(&mut out, "execute-keys -draft '%c<c-r>a<esc>gg'\n");
    proof {
        reveal_strlit("\n");
    }
    assert(out@ =~= goals_buffer_text(buffer@, rendered@, indent@));
    out
}

/// What shows the goals that the servers answered; see `plain_goal_text`.
pub fn plain_goal(buffer: &str, answers: &Vec<Option<String>>) -> (res: String)
    ensures
        res@ == plain_goal_text(buffer@, rendered_goals(answers@)),
{
    let rendered = render(answers);
    let inner = goals_buffer(buffer, rendered.as_str(), "");
    proof {
        reveal_strlit("");
    }
    let mut out = String::new();
    push_str(&mut out, "evaluate-commands -save-regs a ");
    let q = editor_quote(inner.as_str());
    push_str(&mut out, q.as_str());
    assert(""@ =~= Seq::<char>::empty());
    assert(out@ =~= plain_goal_text(buffer@, rendered_goals(answers@)));
    out
}

/// What shows the goals of the term that the servers answered; see
/// `plain_term_goal_text`.
pub fn plain_term_goal(buffer: &str, answers: &Vec<Option<String>>) -> (res: String)
    ensures
        res@ == plain_term_goal_text(buffer@, rendered_goals(answers@)),
{
    let rendered = render(answers);
    let inner = goals_buffer(buffer, rendered.as_str(), "    ");
    let mut out = String::new();
    push_str(&mut out, "evaluate-commands -save-regs a %<\n");
    push_str(&mut out, inner.as_str());
    push_str(&mut out, ">\n");
    assert(out@ =~= plain_term_goal_text(buffer@, rendered_goals(answers@)));
    out
}

} // verus!
