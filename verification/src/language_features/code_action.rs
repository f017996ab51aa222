//! Code actions: the editor commands that perform them, and what a request
//! for them shows (a menu, the one matching action, or why there is none).

use vstd::prelude::*;
use ropey::Rope;
use crate::language_features::document_symbol::{first_line, push_first_line};
use crate::position::{kakoune_position_to_lsp, utf16_character, EOL_OFFSET};
use crate::rope::{rope_line, rope_lines, slice_len_bytes, utf8_len};
use crate::strings::{push_str, str_eq};
use crate::types::{KakounePosition, OffsetEncoding, Position, Range};
use crate::patterns::{pattern_error, pattern_matches, regex_error, regex_match};
use crate::util::{editor_escape, editor_escape_spec, editor_quote, editor_quote_spec};

verus! {

// ---------------------------------------------------------------------------
// Actions

/// A command of a server: its name and its arguments, as JSON.
#[derive(Clone, Debug)]
pub struct ServerCommand {
    pub command: String,
    pub arguments_json: String,
}

/// What a server offers for a range: a command, or a code action (with
/// its kind, a command to run, and a workspace edit, as JSON, if it has
/// them; and the action itself as JSON, for resolving it).
#[derive(Clone, Debug)]
pub enum CodeActionOrCommand {
    Command { title: String, command: ServerCommand },
    CodeAction {
        title: String,
        kind: Option<String>,
        command: Option<ServerCommand>,
        edit_json: Option<String>,
        action_json: String,
    },
}

/// An action offered by a server, and whether that server resolves code
/// actions.
#[derive(Clone, Debug)]
pub struct ActionChoice {
    pub action: CodeActionOrCommand,
    pub may_resolve: bool,
}

/// Which actions a request wants: of some kinds (which the server filters),
/// or whose titles match a pattern.
#[derive(Clone, Debug)]
pub enum CodeActionFilter {
    ByKind(Vec<String>),
    ByRegex(String),
}

/// The command that runs a server command (waiting for it when `sync`).
pub open spec fn execute_command_text(c: ServerCommand, sync: bool) -> Seq<char> {
    (if sync { "lsp-execute-command-sync"@ } else { "lsp-execute-command"@ }) + " "@ + editor_quote_spec(c.command@)
        + " "@ + editor_quote_spec(c.arguments_json@)
}

/// The command that applies a workspace edit given as JSON.
pub open spec fn apply_edit_text(edit_json: Seq<char>, sync: bool) -> Seq<char> {
    (if sync { "lsp-apply-workspace-edit-sync"@ } else { "lsp-apply-workspace-edit"@ }) + " "@ + editor_quote_spec(edit_json)
}

/// The commands that perform a code action: its edit, then its command; or,
/// without an edit, a request to resolve it when its server resolves code
/// actions, else its command alone.
pub open spec fn code_action_text(command: Option<ServerCommand>, edit_json: Option<String>, action_json: Seq<char>, sync: bool, may_resolve: bool) -> Seq<char> {
    let run = match command {
        Some(c) => "\n"@ + execute_command_text(c, sync),
        None => Seq::empty(),
    };
    match edit_json {
        Some(e) => apply_edit_text(e@, sync) + run,
        None => if may_resolve { "lsp-code-action-resolve-request "@ + editor_quote_spec(action_json) } else { run },
    }
}

/// The commands that perform an action or command.
pub open spec fn action_text(a: CodeActionOrCommand, sync: bool, may_resolve: bool) -> Seq<char> {
    match a {
        CodeActionOrCommand::Command { title, command } => execute_command_text(command, sync),
        CodeActionOrCommand::CodeAction { title, kind, command, edit_json, action_json } =>
            code_action_text(command, edit_json, action_json@, sync, may_resolve),
    }
}

/// The title of an action or command.
pub open spec fn title_of(a: CodeActionOrCommand) -> Seq<char> {
    match a {
        CodeActionOrCommand::Command { title, .. } => title@,
        CodeActionOrCommand::CodeAction { title, .. } => title@,
    }
}

/// Appends `s` quoted for Kakoune.
fn push_quoted(out: &mut String, s: &str)
    ensures
        final(out)@ == old(out)@ + editor_quote_spec(s@),
{
    let q = editor_quote(s);
    push_str(out, q.as_str());
}

/// The command that runs a server command; see `execute_command_text`.
pub fn execute_command_editor_command(command: &ServerCommand, sync: bool) -> (res: String)
    ensures
        res@ == execute_command_text(*command, sync),
{
    let mut out = String::new();
    if sync {
        push_str(&mut out, "lsp-execute-command-sync");
    } else {
        push_str(&mut out, "lsp-execute-command");
    }
    push_str(&mut out, " ");
    push_quoted(&mut out, command.command.as_str());
    push_str(&mut out, " ");
    push_quoted(&mut out, command.arguments_json.as_str());
    assert(out@ =~= execute_command_text(*command, sync));
    out
}

/// The command that applies a workspace edit; see `apply_edit_text`.
pub fn apply_workspace_edit_editor_command(edit_json: &str, sync: bool) -> (res: String)
    ensures
        res@ == apply_edit_text(edit_json@, sync),
{
    let mut out = String::new();
    if sync {
        push_str(&mut out, "lsp-apply-workspace-edit-sync");
    } else {
        push_str(&mut out, "lsp-apply-workspace-edit");
    }
    push_str(&mut out, " ");
    push_quoted(&mut out, edit_json);
    assert(out@ =~= apply_edit_text(edit_json@, sync));
    out
}

/// The commands that perform a code action; see `code_action_text`.
pub fn code_action_to_editor_command(
    command: &Option<ServerCommand>,
    edit_json: &Option<String>,
    action_json: &str,
    sync: bool,
    may_resolve: bool,
) -> (res: String)
    ensures
        res@ == code_action_text(*command, *edit_json, action_json@, sync, may_resolve),
{
    let mut run = String::new();
    match command {
        Some(c) => {
            push_str(&mut run, "\n");
            let e = execute_command_editor_command(c, sync);
            push_str(&mut run, e.as_str());
        },
        None => {},
    }
    match edit_json {
        Some(e) => {
            let mut out = apply_workspace_edit_editor_command(e.as_str(), sync);
            push_str(&mut out, run.as_str());
            out
        },
        None => if may_resolve {
            let mut out = String::new();
            push_str(&mut out, "lsp-code-action-resolve-request ");
            push_quoted(&mut out, action_json);
            out
        } else {
            assert(run@ =~= code_action_text(*command, *edit_json, action_json@, sync, may_resolve));
            run
        },
    }
}

/// The commands that perform an action or command; see `action_text`.
pub fn code_action_or_command_to_editor_command(action: &CodeActionOrCommand, sync: bool, may_resolve: bool) -> (res: String)
    ensures
        res@ == action_text(*action, sync, may_resolve),
{
    match action {
        CodeActionOrCommand::Command { command, .. } => execute_command_editor_command(command, sync),
        CodeActionOrCommand::CodeAction { command, edit_json, action_json, .. } =>
            code_action_to_editor_command(command, edit_json, action_json.as_str(), sync, may_resolve),
    }
}


// ---------------------------------------------------------------------------
// What a request for code actions shows

/// Where actions of a kind come in the menu: quick fixes first, then
/// refactorings, then source actions, then everything else.
pub open spec fn kind_rank(kind: Seq<char>) -> int {
    if kind == "quickfix"@ {
        0
    } else if kind == "refactor"@ {
        1
    } else if kind == "refactor.extract"@ {
        2
    } else if kind == "refactor.inline"@ {
        3
    } else if kind == "refactor.rewrite"@ {
        4
    } else if kind == "source"@ {
        5
    } else if kind == "source.organizeImports"@ {
        6
    } else {
        7
    }
}

/// The rank of an action: that of its kind; commands and actions without a
/// kind come last.
pub open spec fn action_rank(a: CodeActionOrCommand) -> int {
    match a {
        CodeActionOrCommand::CodeAction { kind: Some(k), .. } => kind_rank(k@),
        _ => 7,
    }
}

/// The actions of rank `r`, in their order.
pub open spec fn of_rank(s: Seq<ActionChoice>, r: int) -> Seq<ActionChoice>
    decreases s.len(),
{
    if s.len() == 0 {
        Seq::empty()
    } else {
        let rest = of_rank(s.drop_last(), r);
        if action_rank(s.last().action) == r {
            rest.push(s.last())
        } else {
            rest
        }
    }
}

/// The actions of the ranks below `r`, rank by rank, each rank in its order.
pub open spec fn ranked_below(s: Seq<ActionChoice>, r: int) -> Seq<ActionChoice>
    decreases r,
{
    if r <= 0 {
        Seq::empty()
    } else {
        ranked_below(s, r - 1) + of_rank(s, r - 1)
    }
}

/// The actions sorted by rank, actions of one rank keeping their order.
pub open spec fn ranked(s: Seq<ActionChoice>) -> Seq<ActionChoice> {
    ranked_below(s, 8)
}

/// A menu entry: the first line of the title, then the commands that
/// perform the action.
pub open spec fn menu_entry(c: ActionChoice) -> Seq<char> {
    editor_quote_spec(first_line(title_of(c.action))) + " "@ + editor_quote_spec(action_text(c.action, false, c.may_resolve))
}

/// The menu entries of some actions, separated by blanks.
pub open spec fn menu_entries(items: Seq<ActionChoice>) -> Seq<char>
    decreases items.len(),
{
    if items.len() == 0 {
        Seq::empty()
    } else if items.len() == 1 {
        menu_entry(items[0])
    } else {
        menu_entries(items.drop_last()) + " "@ + menu_entry(items.last())
    }
}

/// The arguments of the menu commands: the flag that performs a single
/// action at once, when asked for, then the entries of the actions by rank.
pub open spec fn titles_and_commands(s: Seq<ActionChoice>, auto_single: bool) -> Seq<char> {
    (if auto_single { "-auto-single "@ } else { Seq::empty() }) + menu_entries(ranked(s))
}

/// What an ordinary request shows: the menu of actions to perform, or the
/// indicator that actions are there; or that there are none.
pub open spec fn menu_command(s: Seq<ActionChoice>, perform: bool, auto_single: bool, indicator: Seq<char>) -> Seq<char> {
    let tac = titles_and_commands(s, auto_single);
    if perform {
        if s.len() == 0 {
            "lsp-show-error 'no actions available'"@
        } else {
            "lsp-perform-code-action "@ + tac + "\n"@
        }
    } else {
        if s.len() == 0 {
            "lsp-hide-code-actions\n"@
        } else {
            "evaluate-commands -- "@ + editor_quote_spec(
                "set-option global lsp_code_action_indicator "@ + indicator + "\nlsp-show-code-actions "@ + tac
                    + "\n"@,
            )
        }
    }
}

/// The actions that `keep` marks, in their order.
pub open spec fn kept(s: Seq<ActionChoice>, keep: Seq<bool>) -> Seq<ActionChoice>
    decreases s.len(),
{
    if s.len() == 0 {
        Seq::empty()
    } else {
        let rest = kept(s.drop_last(), keep.drop_last());
        if keep.last() {
            rest.push(s.last())
        } else {
            rest
        }
    }
}

/// How a request that wants a single action fails: with `fail` when it waits
/// for the answer (so that `try` can silence it), else with an error shown.
pub open spec fn failure_command(sync: bool) -> Seq<char> {
    if sync { "fail lsp-code-actions:"@ } else { "lsp-show-error"@ }
}

/// What a request that wants a single action runs: the commands of the one
/// action there is, or a failure when there is none or more than one.
pub open spec fn single_action_command(items: Seq<ActionChoice>, sync: bool) -> Seq<char> {
    "evaluate-commands -- "@ + editor_quote_spec(
        if items.len() == 0 {
            failure_command(sync) + " 'no matching action available'"@
        } else if items.len() == 1 {
            action_text(items[0].action, sync, items[0].may_resolve)
        } else {
            failure_command(sync) + " 'multiple matching actions'"@
        },
    )
}

/// The error shown for a pattern that does not compile.
pub open spec fn invalid_pattern_command(error: Seq<char>) -> Seq<char> {
    "lsp-show-error 'invalid pattern: "@ + editor_escape_spec(error) + "'"@
}

/// Which actions have titles that the pattern matches.
pub open spec fn title_matches(s: Seq<ActionChoice>, pattern: Seq<char>) -> Seq<bool> {
    Seq::new(s.len(), |i: int| regex_match(pattern, title_of(s[i].action)))
}

/// What a request for code actions shows, for the actions that the servers
/// offered: a request filtered by a pattern, or one that waits for the
/// answer, wants the single action there is; any other shows them all.
pub open spec fn code_actions_command(
    s: Seq<ActionChoice>,
    sync: bool,
    filter: Option<CodeActionFilter>,
    perform: bool,
    auto_single: bool,
    indicator: Seq<char>,
) -> Seq<char> {
    match filter {
        Some(CodeActionFilter::ByRegex(p)) => match regex_error(p@) {
            Some(e) => invalid_pattern_command(e),
            None => single_action_command(kept(s, title_matches(s, p@)), sync),
        },
        _ => if sync {
            single_action_command(s, sync)
        } else {
            menu_command(s, perform, auto_single, indicator)
        },
    }
}

/// The title of an action or command.
fn title_str(a: &CodeActionOrCommand) -> (res: &str)
    ensures
        res@ == title_of(*a),
{
    match a {
        CodeActionOrCommand::Command { title, .. } => title.as_str(),
        CodeActionOrCommand::CodeAction { title, .. } => title.as_str(),
    }
}

/// The rank of an action; see `action_rank`.
fn rank_of(a: &CodeActionOrCommand) -> (res: u8)
    ensures
        res == action_rank(*a),
{
    match a {
        CodeActionOrCommand::CodeAction { kind: Some(k), .. } => {
            let k = k.as_str();
            if str_eq(k, "quickfix") {
                0
            } else if str_eq(k, "refactor") {
                1
            } else if str_eq(k, "refactor.extract") {
                2
            } else if str_eq(k, "refactor.inline") {
                3
            } else if str_eq(k, "refactor.rewrite") {
                4
            } else if str_eq(k, "source") {
                5
            } else if str_eq(k, "source.organizeImports") {
                6
            } else {
                7
            }
        },
        _ => 7,
    }
}

/// A menu entry; see `menu_entry`.
fn menu_entry_text(c: &ActionChoice) -> (res: String)
    ensures
        res@ == menu_entry(*c),
{
    let mut title = String::new();
    push_first_line(&mut title, title_str(&c.action));
    let mut out = editor_quote(title.as_str());
    push_str(&mut out, " ");
    let select = code_action_or_command_to_editor_command(&c.action, false, c.may_resolve);
    push_quoted(&mut out, select.as_str());
    out
}

/// The menu of the actions, or the indicator; see `menu_command`.
pub fn code_actions_menu(actions: &Vec<ActionChoice>, perform_code_action: bool, auto_single: bool, indicator: &str) -> (res: String)
    ensures
        res@ == menu_command(actions@, perform_code_action, auto_single, indicator@),
{
    let n = actions.len();
    let mut tac = String::new();
    if auto_single {
        push_str(&mut tac, "-auto-single ");
    }
    let ghost head = tac@;
    let ghost mut listed: Seq<ActionChoice> = Seq::empty();
    let mut any = false;
    let mut r: u8 = 0;
    while r < 8
        invariant
            r <= 8,
            n == actions.len(),
            listed == ranked_below(actions@, r as int),
            tac@ == head + menu_entries(listed),
            any == (listed.len() > 0),
        decreases 8 - r,
    {
        let mut i: usize = 0;
        while i < n
            invariant
                r < 8,
                i <= n,
                n == actions.len(),
                listed == ranked_below(actions@, r as int) + of_rank(actions@.take(i as int), r as int),
                tac@ == head + menu_entries(listed),
                any == (listed.len() > 0),
            decreases n - i,
        {
            let c = &actions[i];
            proof {
                assert(actions@.take(i + 1).drop_last() =~= actions@.take(i as int));
            }
            if rank_of(&c.action) == r {
                let e = menu_entry_text(c);
                if any {
                    push_str(&mut tac, " ");
                }
                push_str(&mut tac, e.as_str());
                proof {
                    let old_listed = listed;
                    listed = listed.push(*c);
                    assert(listed.drop_last() =~= old_listed);
                    assert(ranked_below(actions@, r as int) + of_rank(actions@.take(i + 1), r as int)
                        =~= listed);
                    if old_listed.len() == 0 {
                        assert(tac@ =~= head + menu_entries(listed));
                    } else {
                        assert(tac@ =~= head + menu_entries(listed));
                    }
                }
                any = true;
            }
            i = i + 1;
        }
        proof {
            assert(actions@.take(n as int) =~= actions@);
        }
        r = r + 1;
    }
    let mut out = String::new();
    if perform_code_action {
        if n == 0 {
            push_str(&mut out, "lsp-show-error 'no actions available'");
        } else {
            push_str(&mut out, "lsp-perform-code-action ");
            push_str(&mut out, tac.as_str());
            push_str(&mut out, "\n");
        }
    } else {
        if n == 0 {
            push_str(&mut out, "lsp-hide-code-actions\n");
        } else {
            let mut commands = String::new();
            push_str(&mut commands, "set-option global lsp_code_action_indicator ");
            push_str(&mut commands, indicator);
            push_str(&mut commands, "\nlsp-show-code-actions ");
            push_str(&mut commands, tac.as_str());
            push_str(&mut commands, "\n");
            push_str(&mut out, "evaluate-commands -- ");
            push_quoted(&mut out, commands.as_str());
        }
    }
    proof {
        assert(tac@ =~= titles_and_commands(actions@, auto_single));
    }
    assert(out@ =~= menu_command(actions@, perform_code_action, auto_single, indicator@));
    out
}

/// The command of the one action that `keep` marks, or the failure when
/// it marks none or several; see `single_action_command`.
pub fn pick_single_action(actions: &Vec<ActionChoice>, keep: &Vec<bool>, sync: bool) -> (res: String)
    requires
        keep.len() == actions.len(),
    ensures
        res@ == single_action_command(kept(actions@, keep@), sync),
{
    let n = actions.len();
    let mut count: usize = 0;
    let mut first: usize = 0;
    let mut i: usize = 0;
    while i < n
        invariant
            i <= n,
            n == actions.len(),
            n == keep.len(),
            count == kept(actions@.take(i as int), keep@.take(i as int)).len(),
            count <= i,
            count >= 1 ==> first < n && kept(actions@.take(i as int), keep@.take(i as int))[0] == actions@[first as int],
        decreases n - i,
    {
        proof {
            assert(actions@.take(i + 1).drop_last() =~= actions@.take(i as int));
            assert(keep@.take(i + 1).drop_last() =~= keep@.take(i as int));
        }
        if keep[i] {
            if count == 0 {
                first = i;
            }
            count = count + 1;
        }
        i = i + 1;
    }
    proof {
        assert(actions@.take(n as int) =~= actions@);
        assert(keep@.take(n as int) =~= keep@);
    }
    let mut failure = String::new();
    if sync {
        push_str(&mut failure, "fail lsp-code-actions:");
    } else {
        push_str(&mut failure, "lsp-show-error");
    }
    let mut command = String::new();
    if count == 0 {
        push_str(&mut command, failure.as_str());
        push_str(&mut command, " 'no matching action available'");
    } else if count == 1 {
        let c = &actions[first];
        command = code_action_or_command_to_editor_command(&c.action, sync, c.may_resolve);
    } else {
        push_str(&mut command, failure.as_str());
        push_str(&mut command, " 'multiple matching actions'");
    }
    let mut out = String::new();
    push_str(&mut out, "evaluate-commands -- ");
    push_quoted(&mut out, command.as_str());
    assert(out@ =~= single_action_command(kept(actions@, keep@), sync));
    out
}

/// The error shown for a pattern that does not compile; see
/// `invalid_pattern_command`.
pub fn invalid_pattern_message(error: &str) -> (res: String)
    ensures
        res@ == invalid_pattern_command(error@),
{
    let mut out = String::new();
    push_str(&mut out, "lsp-show-error 'invalid pattern: ");
    let e = editor_escape(error);
    push_str(&mut out, e.as_str());
    push_str(&mut out, "'");
    assert(out@ =~= invalid_pattern_command(error@));
    out
}

/// Marking every action keeps them all.
proof fn lemma_kept_all(s: Seq<ActionChoice>, keep: Seq<bool>)
    requires
        keep.len() == s.len(),
        forall|i: int| 0 <= i < keep.len() ==> keep[i],
    ensures
        kept(s, keep) == s,
    decreases s.len(),
{
    if s.len() > 0 {
        lemma_kept_all(s.drop_last(), keep.drop_last());
        assert(s.drop_last().push(s.last()) =~= s);
    }
}

/// What a request for code actions shows, for the actions that the servers
/// offered; see `code_actions_command`.
pub fn editor_code_actions(
    actions: &Vec<ActionChoice>,
    sync: bool,
    filter: &Option<CodeActionFilter>,
    perform_code_action: bool,
    auto_single: bool,
    indicator: &str,
) -> (res: String)
    ensures
        res@ == code_actions_command(actions@, sync, *filter, perform_code_action, auto_single, indicator@),
{
    let n = actions.len();
    match filter {
        Some(CodeActionFilter::ByRegex(pattern)) => {
            match pattern_error(pattern.as_str()) {
                Some(e) => invalid_pattern_message(e.as_str()),
                None => {
                    let mut keep: Vec<bool> = Vec::new();
                    let mut i: usize = 0;
                    while i < n
                        invariant
                            i <= n,
                            n == actions.len(),
                            regex_error(pattern@) is None,
                            keep@ =~= title_matches(actions@, pattern@).take(i as int),
                        decreases n - i,
                    {
                        let m = pattern_matches(pattern.as_str(), title_str(&actions[i].action));
                        keep.push(m);
                        i = i + 1;
                    }
                    proof {
                        assert(title_matches(actions@, pattern@).take(n as int) =~= title_matches(actions@, pattern@));
                    }
                    pick_single_action(actions, &keep, sync)
                },
            }
        },
        _ => {
            if sync {
                let mut keep: Vec<bool> = Vec::new();
                let mut i: usize = 0;
                while i < n
                    invariant
                        i <= n,
                        keep.len() == i,
                        forall|k: int| 0 <= k < i ==> keep@[k],
                    decreases n - i,
                {
                    keep.push(true);
                    i = i + 1;
                }
                proof {
                    lemma_kept_all(actions@, keep@);
                }
                pick_single_action(actions, &keep, sync)
            } else {
                code_actions_menu(actions, perform_code_action, auto_single, indicator)
            }
        },
    }
}


/// Appending an action to the offered ones appends it to its rank.
proof fn lemma_of_rank_push(s: Seq<ActionChoice>, x: ActionChoice, r: int)
    ensures
        of_rank(s.push(x), r) == (if action_rank(x.action) == r { of_rank(s, r).push(x) } else { of_rank(s, r) }),
{
    assert(s.push(x).drop_last() =~= s);
}

/// Every action has a rank between 0 and 7.
proof fn lemma_action_rank_bounds(a: CodeActionOrCommand)
    ensures
        0 <= action_rank(a) < 8,
{
}

/// Ranking no actions gives none.
proof fn lemma_ranked_below_empty(k: int)
    ensures
        ranked_below(Seq::<ActionChoice>::empty(), k) == Seq::<ActionChoice>::empty(),
    decreases k,
{
    if k > 0 {
        lemma_ranked_below_empty(k - 1);
        assert(ranked_below(Seq::<ActionChoice>::empty(), k - 1) + of_rank(Seq::<ActionChoice>::empty(), k - 1)
            =~= Seq::<ActionChoice>::empty());
    }
}

/// An appended action is among the actions of the ranks below `k` just when
/// its rank is below `k`.
proof fn lemma_ranked_below_push(s: Seq<ActionChoice>, x: ActionChoice, k: int)
    ensures
        ranked_below(s.push(x), k).to_multiset() == (if 0 <= action_rank(x.action) < k {
            ranked_below(s, k).to_multiset().insert(x)
        } else {
            ranked_below(s, k).to_multiset()
        }),
    decreases k,
{
    broadcast use vstd::seq_lib::group_to_multiset_ensures;
    lemma_action_rank_bounds(x.action);
    if k > 0 {
        lemma_ranked_below_push(s, x, k - 1);
        lemma_of_rank_push(s, x, k - 1);
        vstd::seq_lib::lemma_multiset_commutative(ranked_below(s.push(x), k - 1), of_rank(s.push(x), k - 1));
        vstd::seq_lib::lemma_multiset_commutative(ranked_below(s, k - 1), of_rank(s, k - 1));
        assert(ranked_below(s.push(x), k).to_multiset() =~= (if 0 <= action_rank(x.action) < k {
            ranked_below(s, k).to_multiset().insert(x)
        } else {
            ranked_below(s, k).to_multiset()
        }));
    }
}

/// Every action of `of_rank(s, r)` has rank `r`.
proof fn lemma_of_rank_ranks(s: Seq<ActionChoice>, r: int)
    ensures
        forall|i: int| 0 <= i < of_rank(s, r).len() ==> action_rank(#[trigger] of_rank(s, r)[i].action) == r,
    decreases s.len(),
{
    if s.len() > 0 {
        lemma_of_rank_ranks(s.drop_last(), r);
    }
}

/// The actions of the ranks below `k` have ranks below `k`, in order.
proof fn lemma_ranked_below_sorted(s: Seq<ActionChoice>, k: int)
    ensures
        forall|i: int| 0 <= i < ranked_below(s, k).len() ==> action_rank(#[trigger] ranked_below(s, k)[i].action) < k,
        forall|i: int, j: int|
            0 <= i < j < ranked_below(s, k).len() ==> action_rank(#[trigger] ranked_below(s, k)[i].action)
                <= action_rank(#[trigger] ranked_below(s, k)[j].action),
    decreases k,
{
    if k > 0 {
        lemma_ranked_below_sorted(s, k - 1);
        lemma_of_rank_ranks(s, k - 1);
        let a = ranked_below(s, k - 1);
        let b = of_rank(s, k - 1);
        assert(ranked_below(s, k) == a + b);
        assert forall|i: int| 0 <= i < ranked_below(s, k).len() implies action_rank(
            #[trigger] ranked_below(s, k)[i].action,
        ) < k by {
            if i < a.len() {
                assert(ranked_below(s, k)[i] == a[i]);
            } else {
                assert(ranked_below(s, k)[i] == b[i - a.len()]);
            }
        }
        assert forall|i: int, j: int| 0 <= i < j < ranked_below(s, k).len() implies action_rank(
            #[trigger] ranked_below(s, k)[i].action,
        ) <= action_rank(#[trigger] ranked_below(s, k)[j].action) by {
            if j < a.len() {
                assert(ranked_below(s, k)[i] == a[i]);
                assert(ranked_below(s, k)[j] == a[j]);
            } else if i < a.len() {
                assert(ranked_below(s, k)[i] == a[i]);
                assert(ranked_below(s, k)[j] == b[j - a.len()]);
            } else {
                assert(ranked_below(s, k)[i] == b[i - a.len()]);
                assert(ranked_below(s, k)[j] == b[j - a.len()]);
            }
        }
    }
}

/// The menu lists every offered action exactly once, whatever their kinds,
/// and in the order of their ranks: quick fixes first, then refactorings,
/// then source actions, then the rest.
pub proof fn lemma_menu_order(s: Seq<ActionChoice>)
    ensures
        ranked(s).to_multiset() == s.to_multiset(),
        forall|i: int, j: int|
            0 <= i < j < ranked(s).len() ==> action_rank(#[trigger] ranked(s)[i].action) <= action_rank(
                #[trigger] ranked(s)[j].action,
            ),
    decreases s.len(),
{
    broadcast use vstd::seq_lib::group_to_multiset_ensures;
    lemma_ranked_below_sorted(s, 8);
    if s.len() == 0 {
        lemma_ranked_below_empty(8);
        assert(s =~= Seq::<ActionChoice>::empty());
    } else {
        let t = s.drop_last();
        lemma_menu_order(t);
        lemma_ranked_below_push(t, s.last(), 8);
        lemma_action_rank_bounds(s.last().action);
        assert(t.push(s.last()) =~= s);
    }
}


// ---------------------------------------------------------------------------
// Asking again on whole lines

/// What a server answered for the range it was asked about: that range, if
/// it was asked, and whether it answered with an empty list of actions.
#[derive(Clone, Copy, Debug)]
pub struct RangeReply {
    pub range: Option<Range>,
    pub empty_reply: bool,
}

/// Whether to ask again on whole lines: when the request was made by hand and
/// every server that was asked answered with no actions for a range that
/// neither starts a line nor reaches its end (some servers offer actions only
/// for ranges that hold the nodes they affect).
pub open spec fn asks_whole_lines(hook: bool, replies: Seq<RangeReply>) -> bool {
    &&& !hook
    &&& forall|i: int|
        0 <= i < replies.len() ==> match #[trigger] replies[i].range {
            Some(r) => replies[i].empty_reply && r.start.character != 0 && r.end.character != EOL_OFFSET,
            None => true,
        }
}

/// Whether to ask again on whole lines; see `asks_whole_lines`.
pub fn should_request_whole_lines(hook: bool, replies: &Vec<RangeReply>) -> (res: bool)
    ensures
        res == asks_whole_lines(hook, replies@),
{
    if hook {
        return false;
    }
    let mut i: usize = 0;
    while i < replies.len()
        invariant
            i <= replies.len(),
            forall|k: int|
                0 <= k < i ==> match #[trigger] replies@[k].range {
                    Some(r) => replies@[k].empty_reply && r.start.character != 0 && r.end.character != EOL_OFFSET,
                    None => true,
                },
        decreases replies.len() - i,
    {
        let reply = replies[i];
        match reply.range {
            Some(r) => {
                if !(reply.empty_reply && r.start.character != 0 && r.end.character != EOL_OFFSET) {
                    return false;
                }
            },
            None => {},
        }
        i = i + 1;
    }
    true
}

/// A range widened to whole lines: from the start of its first line to the
/// last byte of its last line (the line break, where there is one), in the
/// server's offset encoding.
pub fn whole_line_range(range: &Range, text: &Rope, offset_encoding: OffsetEncoding) -> (res: Range)
    requires
        (range.end.line as int) < rope_lines(*text).len(),
        range.end.line < u32::MAX,
        1 <= utf8_len(rope_lines(*text)[range.end.line as int]) <= u32::MAX,
    ensures
        res.start == (Position { line: range.start.line, character: 0 }),
        res.end.line == range.end.line,
        offset_encoding == OffsetEncoding::Utf8 ==> res.end.character == utf8_len(
            rope_lines(*text)[range.end.line as int],
        ) - 1,
        offset_encoding == OffsetEncoding::Utf16 ==> utf16_character(
            KakounePosition {
                line: (range.end.line + 1) as u32,
                column: utf8_len(rope_lines(*text)[range.end.line as int]) as u32,
            },
            rope_lines(*text),
            res.end.character as int,
        ),
{
    let line = rope_line(text, range.end.line as usize);
    let len = slice_len_bytes(&line);
    let end = KakounePosition { line: range.end.line + 1, column: len as u32 };
    let p = kakoune_position_to_lsp(&end, text, offset_encoding);
    Range {
        start: Position { line: range.start.line, character: 0 },
        end: Position { line: range.end.line, character: p.character },
    }
}

} // verus!
