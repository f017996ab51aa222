//! Formatting a buffer, or ranges of it: which servers can, and what is done
//! when none, one or several can.

use vstd::prelude::*;
use crate::capabilities::{server_has_capability, supports, Capability, ServerFeatures};
use crate::controller::{can_serve, serves, RunningServer};
use crate::strings::{push_char, push_str};
use crate::text_edit::join_spaced;
use crate::util::{editor_quote, editor_quote_spec};

verus! {

/// A server that might format: how it runs, and what it offers.
pub struct FormattingServer {
    pub server: RunningServer,
    pub capabilities: Option<ServerFeatures>,
}

/// Whether a server offers a feature.
pub open spec fn offers(capabilities: Option<ServerFeatures>, feature: Capability) -> bool {
    match capabilities {
        Some(f) => supports(f, feature),
        None => false,
    }
}

/// The feature asked for: formatting the buffer, or ranges of it.
pub open spec fn formatting_feature(range: bool) -> Capability {
    if range { Capability::RangeFormatting } else { Capability::Formatting }
}

/// Whether a server can format: it offers the feature and, where the
/// request names a server (with the root it was configured with), serves it.
pub open spec fn eligible(s: FormattingServer, range: bool, requested: Option<(Seq<char>, Seq<char>)>) -> bool {
    &&& offers(s.capabilities, formatting_feature(range))
    &&& match requested {
        Some((name, root)) => serves(s.server, name, root),
        None => true,
    }
}

/// The indices of the servers that can format, in their order.
pub open spec fn eligible_servers(servers: Seq<FormattingServer>, range: bool, requested: Option<(Seq<char>, Seq<char>)>) -> Seq<usize>
    decreases servers.len(),
{
    if servers.len() == 0 {
        Seq::empty()
    } else {
        let rest = eligible_servers(servers.drop_last(), range, requested);
        if eligible(servers.last(), range, requested) {
            rest.push((servers.len() - 1) as usize)
        } else {
            rest
        }
    }
}

/// The editor command that formats with one named server.
pub open spec fn formatting_command(range: bool, sync: bool) -> Seq<char> {
    if range {
        if sync { "lsp-range-formatting-sync"@ } else { "lsp-range-formatting"@ }
    } else {
        if sync { "lsp-formatting-sync"@ } else { "lsp-formatting"@ }
    }
}

/// A menu entry: the server's name, and the command that formats with it.
pub open spec fn menu_choice(name: Seq<char>, command: Seq<char>) -> Seq<char> {
    editor_quote_spec(name) + seq![' '] + editor_quote_spec(command + seq![' '] + name)
}

/// The menu from which the user picks a server.
pub open spec fn formatting_menu(names: Seq<Seq<char>>, command: Seq<char>) -> Seq<char> {
    "lsp-menu "@ + join_spaced(names.map_values(|n: Seq<char>| menu_choice(n, command)))
}

/// What a request to format leads to.
pub enum FormattingPlan {
    /// No server can format, and nothing is done.
    Nothing,
    /// No server can format the buffer; `nop` answers the waiting editor.
    Nop,
    /// Several servers can: the user picks one from this menu.
    Menu(String),
    /// One server can, the one at this index: it is asked.
    Request(usize),
}

/// What a request to format leads to: with no server able to, nothing (or
/// `nop`, where the editor waits for the whole buffer to be formatted); with
/// one, a request to it; with several, a menu of their names.
pub open spec fn formatting_plan_for(servers: Seq<FormattingServer>, range: bool, sync: bool, requested: Option<(Seq<char>, Seq<char>)>) -> FormattingPlanView {
    let e = eligible_servers(servers, range, requested);
    if e.len() == 0 {
        if sync && !range { FormattingPlanView::Nop } else { FormattingPlanView::Nothing }
    } else if e.len() == 1 {
        FormattingPlanView::Request(e[0])
    } else {
        FormattingPlanView::Menu(formatting_menu(e.map_values(|i: usize| servers[i as int].server.name@), formatting_command(range, sync)))
    }
}

/// A plan as values.
pub enum FormattingPlanView {
    Nothing,
    Nop,
    Menu(Seq<char>),
    Request(usize),
}

impl FormattingPlan {
    pub open spec fn view(self) -> FormattingPlanView {
        match self {
            FormattingPlan::Nothing => FormattingPlanView::Nothing,
            FormattingPlan::Nop => FormattingPlanView::Nop,
            FormattingPlan::Menu(s) => FormattingPlanView::Menu(s@),
            FormattingPlan::Request(i) => FormattingPlanView::Request(i),
        }
    }
}

proof fn lemma_join_spaced_push(parts: Seq<Seq<char>>, x: Seq<char>)
    ensures
        join_spaced(parts.push(x)) == if parts.len() == 0 { x } else { join_spaced(parts) + seq![' '] + x },
{
    assert(parts.push(x).drop_last() =~= parts);
}

/// The indices of the servers that can format; see `eligible_servers`.
fn eligible_indices(servers: &Vec<FormattingServer>, range: bool, requested: &Option<(String, String)>) -> (res: Vec<usize>)
    ensures
        res@ == eligible_servers(servers@, range, match requested { Some((n, r)) => Some((n@, r@)), None => None }),
        forall|k: int| 0 <= k < res.len() ==> res@[k] < servers.len(),
{
    let ghost req = match requested { Some((n, r)) => Some((n@, r@)), None => None::<(Seq<char>, Seq<char>)> };
    let feature = if range { Capability::RangeFormatting } else { Capability::Formatting };
    let mut out: Vec<usize> = Vec::new();
    let mut k: usize = 0;
    while k < servers.len()
        invariant
            k <= servers.len(),
            feature == formatting_feature(range),
            req == match requested { Some((n, r)) => Some((n@, r@)), None => None::<(Seq<char>, Seq<char>)> },
            out@ == eligible_servers(servers@.take(k as int), range, req),
            forall|j: int| 0 <= j < out.len() ==> out@[j] < k,
        decreases servers.len() - k,
    {
        let s = &servers[k];
        proof {
            assert(servers@.take(k + 1).drop_last() =~= servers@.take(k as int));
        }
        let mut ok = server_has_capability(&s.capabilities, feature);
        if ok {
            match requested {
                Some((name, root)) => {
                    ok = can_serve(&s.server, name.as_str(), root.as_str());
                },
                None => {},
            }
        }
        if ok {
            out.push(k);
        }
        k = k + 1;
    }
    assert(servers@.take(k as int) =~= servers@);
    out
}

/// What a request to format leads to; see `formatting_plan_for`.
pub fn plan_formatting(servers: &Vec<FormattingServer>, range: bool, sync: bool, requested: &Option<(String, String)>) -> (res: FormattingPlan)
    ensures
        res.view() == formatting_plan_for(servers@, range, sync, match requested { Some((n, r)) => Some((n@, r@)), None => None }),
{
    let e = eligible_indices(servers, range, requested);
    if e.len() == 0 {
        return if sync && !range { FormattingPlan::Nop } else { FormattingPlan::Nothing };
    }
    if e.len() == 1 {
        return FormattingPlan::Request(e[0]);
    }
    let command: &str = if range {
        if sync { "lsp-range-formatting-sync" } else { "lsp-range-formatting" }
    } else {
        if sync { "lsp-formatting-sync" } else { "lsp-formatting" }
    };
    let ghost names = e@.map_values(|i: usize| servers@[i as int].server.name@);
    let mut choices = String::new();
    let mut t: usize = 0;
    while t < e.len()
        invariant
            t <= e.len(),
            forall|k: int| 0 <= k < e.len() ==> e@[k] < servers.len(),
            names == e@.map_values(|i: usize| servers@[i as int].server.name@),
            command@ == formatting_command(range, sync),
            choices@ == join_spaced(names.take(t as int).map_values(|n: Seq<char>| menu_choice(n, command@))),
        decreases e.len() - t,
    {
        let name = servers[e[t]].server.name.as_str();
        let ghost before = choices@;
        proof {
            assert(names[t as int] == name@);
            assert(names.take(t + 1) =~= names.take(t as int).push(name@));
            let parts = names.take(t as int).map_values(|n: Seq<char>| menu_choice(n, command@));
            assert(names.take(t + 1).map_values(|n: Seq<char>| menu_choice(n, command@)) =~= parts.push(menu_choice(name@, command@)));
            lemma_join_spaced_push(parts, menu_choice(name@, command@));
        }
        if t > 0 {
            push_char(&mut choices, ' ');
        }
        let q = editor_quote(name);
        push_str(&mut choices, q.as_str());
        push_char(&mut choices, ' ');
        let mut cmd = String::new();
        push_str(&mut cmd, command);
        push_char(&mut cmd, ' ');
        push_str(&mut cmd, name);
        assert(cmd@ =~= command@ + seq![' '] + name@);
        let qc = editor_quote(cmd.as_str());
        push_str(&mut choices, qc.as_str());
        assert(choices@ =~= before + (if t > 0 { seq![' '] } else { Seq::empty() }) + menu_choice(name@, command@));
        t = t + 1;
    }
    assert(names.take(t as int) =~= names);
    let mut menu = String::new();
    push_str(&mut menu, "lsp-menu ");
    push_str(&mut menu, choices.as_str());
    FormattingPlan::Menu(menu)
}

} // verus!
