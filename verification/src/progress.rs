//! Work-done progress that language servers report: which tokens are known
//! and started, and the command that shows each event in the editor.

use vstd::prelude::*;
use crate::diagnostics::{int_decimal, push_int};
use crate::strings::{decimal, push_char, push_decimal, push_str, str_eq};
use crate::util::{editor_quote, editor_quote_spec};

verus! {

/// A progress token: a number or a string.
#[derive(Clone, Debug)]
pub enum ProgressToken {
    Number(i32),
    Text(String),
}

/// A progress token as a value.
pub enum ProgressKey {
    Number(int),
    Text(Seq<char>),
}

impl View for ProgressToken {
    type V = ProgressKey;

    open spec fn view(&self) -> ProgressKey {
        match self {
            ProgressToken::Number(n) => ProgressKey::Number(*n as int),
            ProgressToken::Text(s) => ProgressKey::Text(s@),
        }
    }
}

/// Whether two tokens are the same.
fn same_token(a: &ProgressToken, b: &ProgressToken) -> (res: bool)
    ensures
        res == (a@ == b@),
{
    match (a, b) {
        (ProgressToken::Number(x), ProgressToken::Number(y)) => *x == *y,
        (ProgressToken::Text(x), ProgressToken::Text(y)) => str_eq(x.as_str(), y.as_str()),
        _ => false,
    }
}

/// How a started progress was announced, as its later reports update it.
#[derive(Clone, Debug)]
pub struct ProgressBegin {
    pub title: String,
    pub cancellable: Option<bool>,
    pub message: Option<String>,
    pub percentage: Option<u32>,
}

/// A started progress as a value.
pub struct BeginView {
    pub title: Seq<char>,
    pub cancellable: Option<bool>,
    pub message: Option<Seq<char>>,
    pub percentage: Option<u32>,
}

/// The view of an optional string.
pub open spec fn opt_view(s: Option<String>) -> Option<Seq<char>> {
    match s {
        Some(t) => Some(t@),
        None => None,
    }
}

impl View for ProgressBegin {
    type V = BeginView;

    open spec fn view(&self) -> BeginView {
        BeginView {
            title: self.title@,
            cancellable: self.cancellable,
            message: opt_view(self.message),
            percentage: self.percentage,
        }
    }
}

/// The state of a known token: `None` until its progress begins.
pub open spec fn state_view(s: Option<ProgressBegin>) -> Option<BeginView> {
    match s {
        Some(b) => Some(b@),
        None => None,
    }
}

/// The tokens of a list of entries are pairwise distinct.
pub open spec fn distinct_tokens(s: Seq<(ProgressToken, Option<ProgressBegin>)>) -> bool {
    forall|i: int, j: int| 0 <= i < j < s.len() ==> s[i].0@ != s[j].0@
}

/// The map from token to state that a list of entries holds.
pub open spec fn entries_map(s: Seq<(ProgressToken, Option<ProgressBegin>)>) -> Map<ProgressKey, Option<BeginView>>
    decreases s.len(),
{
    if s.len() == 0 {
        Map::empty()
    } else {
        entries_map(s.drop_last()).insert(s.last().0@, state_view(s.last().1))
    }
}

/// The keys of the map are the entries' tokens, each with its entry's state.
proof fn lemma_entries_map(s: Seq<(ProgressToken, Option<ProgressBegin>)>)
    requires
        distinct_tokens(s),
    ensures
        forall|i: int| 0 <= i < s.len() ==> #[trigger] entries_map(s).contains_key(s[i].0@)
            && entries_map(s)[s[i].0@] == state_view(s[i].1),
        forall|k: ProgressKey| #[trigger] entries_map(s).contains_key(k) ==> exists|i: int| 0 <= i < s.len() && s[i].0@ == k,
    decreases s.len(),
{
    if s.len() > 0 {
        let t = s.drop_last();
        assert(distinct_tokens(t));
        lemma_entries_map(t);
        assert forall|i: int| 0 <= i < s.len() implies #[trigger] entries_map(s).contains_key(s[i].0@)
            && entries_map(s)[s[i].0@] == state_view(s[i].1) by {
            if i < s.len() - 1 {
                assert(t[i] == s[i]);
                assert(s[i].0@ != s.last().0@);
            }
        }
        assert forall|k: ProgressKey| #[trigger] entries_map(s).contains_key(k) implies exists|i: int| 0 <= i < s.len() && s[i].0@ == k by {
            if k != s.last().0@ {
                assert(entries_map(t).contains_key(k));
                let i = choose|i: int| 0 <= i < t.len() && t[i].0@ == k;
                assert(s[i] == t[i]);
            } else {
                assert(s[s.len() - 1].0@ == k);
            }
        }
    }
}

/// Replacing the state of entry `i` updates the map at its token.
proof fn lemma_entries_map_update(s: Seq<(ProgressToken, Option<ProgressBegin>)>, i: int, t: ProgressToken, v: Option<ProgressBegin>)
    requires
        distinct_tokens(s),
        0 <= i < s.len(),
        t@ == s[i].0@,
    ensures
        entries_map(s.update(i, (t, v))) == entries_map(s).insert(s[i].0@, state_view(v)),
        distinct_tokens(s.update(i, (t, v))),
    decreases s.len(),
{
    let u = s.update(i, (t, v));
    assert forall|a: int, b: int| 0 <= a < b < u.len() implies u[a].0@ != u[b].0@ by {
        assert(s[a].0@ != s[b].0@);
    }
    if i == s.len() - 1 {
        assert(u.drop_last() =~= s.drop_last());
        assert(entries_map(u) =~= entries_map(s).insert(s[i].0@, state_view(v)));
    } else {
        let d = s.drop_last();
        assert(distinct_tokens(d));
        lemma_entries_map_update(d, i, t, v);
        assert(u.drop_last() =~= d.update(i, (t, v)));
        assert(s[i].0@ != s.last().0@);
        assert(entries_map(u) =~= entries_map(s).insert(s[i].0@, state_view(v)));
    }
}

/// Removing entry `i` removes its token from the map.
proof fn lemma_entries_map_remove(s: Seq<(ProgressToken, Option<ProgressBegin>)>, i: int)
    requires
        distinct_tokens(s),
        0 <= i < s.len(),
    ensures
        entries_map(s.remove(i)) == entries_map(s).remove(s[i].0@),
        distinct_tokens(s.remove(i)),
    decreases s.len(),
{
    let r = s.remove(i);
    let t = s.drop_last();
    assert(distinct_tokens(t));
    if i == s.len() - 1 {
        assert(r =~= t);
        lemma_entries_map(t);
        if entries_map(t).contains_key(s[i].0@) {
            let j = choose|j: int| 0 <= j < t.len() && t[j].0@ == s[i].0@;
            assert(s[j] == t[j]);
        }
        assert(entries_map(r) =~= entries_map(s).remove(s[i].0@));
    } else {
        lemma_entries_map_remove(t, i);
        assert(r.drop_last() =~= t.remove(i));
        assert(r.last() == s.last());
        assert(s[i].0@ != s.last().0@);
        assert(entries_map(r) =~= entries_map(s).remove(s[i].0@));
    }
    assert forall|a: int, b: int| 0 <= a < b < r.len() implies r[a].0@ != r[b].0@ by {
        let sa = if a < i { a } else { a + 1 };
        let sb = if b < i { b } else { b + 1 };
        assert(r[a] == s[sa]);
        assert(r[b] == s[sb]);
    }
}

/// The progress tokens that the servers created, and the state of each.
pub struct WorkDoneProgress {
    entries: Vec<(ProgressToken, Option<ProgressBegin>)>,
}

impl WorkDoneProgress {
    #[verifier::type_invariant]
    spec fn well_formed(self) -> bool {
        distinct_tokens(self.entries@)
    }
}

impl View for WorkDoneProgress {
    type V = Map<ProgressKey, Option<BeginView>>;

    closed spec fn view(&self) -> Map<ProgressKey, Option<BeginView>> {
        entries_map(self.entries@)
    }
}

impl WorkDoneProgress {
    /// No token known.
    pub fn new() -> (res: Self)
        ensures
            res@ == Map::<ProgressKey, Option<BeginView>>::empty(),
    {
        let res = WorkDoneProgress { entries: Vec::new() };
        assert(res.entries@ =~= Seq::<(ProgressToken, Option<ProgressBegin>)>::empty());
        res
    }

    /// Where the entry of a token is.
    fn find(&self, token: &ProgressToken) -> (res: Option<usize>)
        ensures
            match res {
                Some(i) => i < self.entries@.len() && self.entries@[i as int].0@ == token@
                    && self@.contains_key(token@) && self@[token@] == state_view(self.entries@[i as int].1),
                None => !self@.contains_key(token@),
            },
    {
        proof {
            use_type_invariant(self);
            lemma_entries_map(self.entries@);
        }
        let mut i: usize = 0;
        while i < self.entries.len()
            invariant
                i <= self.entries@.len(),
                forall|j: int| 0 <= j < i ==> self.entries@[j].0@ != token@,
            decreases self.entries@.len() - i,
        {
            if same_token(&self.entries[i].0, token) {
                proof {
                    use_type_invariant(self);
                    lemma_entries_map(self.entries@);
                    assert(entries_map(self.entries@).contains_key(self.entries@[i as int].0@));
                }
                return Some(i);
            }
            i += 1;
        }
        proof {
            if self@.contains_key(token@) {
                let j = choose|j: int| 0 <= j < self.entries@.len() && self.entries@[j].0@ == token@;
                assert(self.entries@[j].0@ == token@);
            }
        }
        None
    }

    /// Whether the token is known.
    pub fn contains(&self, token: &ProgressToken) -> (res: bool)
        ensures
            res == self@.contains_key(token@),
    {
        self.find(token).is_some()
    }

    /// Records a token that a server created; a token that is known already
    /// keeps its state. Returns whether the token was new.
    pub fn create(&mut self, token: ProgressToken) -> (res: bool)
        ensures
            res == !old(self)@.contains_key(token@),
            final(self)@ == create_spec(old(self)@, token@),
    {
        if self.find(&token).is_some() {
            return false;
        }
        proof {
            use_type_invariant(&*self);
        }
        let ghost key = token@;
        let mut entries = Vec::new();
        std::mem::swap(&mut entries, &mut self.entries);
        let ghost before = entries@;
        proof {
            lemma_entries_map(before);
            assert forall|j: int| 0 <= j < before.len() implies before[j].0@ != key by {
                if before[j].0@ == key {
                    assert(entries_map(before).contains_key(before[j].0@));
                }
            }
        }
        entries.push((token, None));
        proof {
            assert(entries@.drop_last() =~= before);
            assert(distinct_tokens(entries@));
        }
        self.entries = entries;
        true
    }
}

/// The states after a server creates a token.
pub open spec fn create_spec(table: Map<ProgressKey, Option<BeginView>>, key: ProgressKey) -> Map<ProgressKey, Option<BeginView>> {
    if table.contains_key(key) { table } else { table.insert(key, None) }
}

/// A copy of a token.
fn copy_token(t: &ProgressToken) -> (res: ProgressToken)
    ensures
        res@ == t@,
{
    match t {
        ProgressToken::Number(n) => ProgressToken::Number(*n),
        ProgressToken::Text(s) => ProgressToken::Text(s.clone()),
    }
}

impl WorkDoneProgress {
    /// Sets the state of entry `i`.
    fn set_state(&mut self, i: usize, state: Option<ProgressBegin>)
        requires
            i < old(self).entries@.len(),
        ensures
            final(self)@ == old(self)@.insert(old(self).entries@[i as int].0@, state_view(state)),
    {
        proof {
            use_type_invariant(&*self);
        }
        let mut entries = Vec::new();
        std::mem::swap(&mut entries, &mut self.entries);
        let ghost before = entries@;
        let token = copy_token(&entries[i].0);
        proof {
            lemma_entries_map_update(before, i as int, token, state);
        }
        entries.set(i, (token, state));
        self.entries = entries;
    }

    /// Forgets entry `i`, giving back its state.
    fn remove_at(&mut self, i: usize) -> (res: Option<ProgressBegin>)
        requires
            i < old(self).entries@.len(),
        ensures
            final(self)@ == old(self)@.remove(old(self).entries@[i as int].0@),
            res == old(self).entries@[i as int].1,
    {
        proof {
            use_type_invariant(&*self);
        }
        let mut entries = Vec::new();
        std::mem::swap(&mut entries, &mut self.entries);
        let ghost before = entries@;
        proof {
            lemma_entries_map_remove(before, i as int);
        }
        let (_, state) = entries.remove(i);
        self.entries = entries;
        state
    }
}

/// An event of a progress: its beginning, a report or its end.
pub enum ProgressEvent {
    Begin(ProgressBegin),
    Report { cancellable: Option<bool>, message: Option<String>, percentage: Option<u32> },
    End { message: Option<String> },
}

/// A progress event as a value.
pub enum EventView {
    Begin(BeginView),
    Report { cancellable: Option<bool>, message: Option<Seq<char>>, percentage: Option<u32> },
    End { message: Option<Seq<char>> },
}

impl View for ProgressEvent {
    type V = EventView;

    open spec fn view(&self) -> EventView {
        match self {
            ProgressEvent::Begin(b) => EventView::Begin(b@),
            ProgressEvent::Report { cancellable, message, percentage } => EventView::Report {
                cancellable: *cancellable,
                message: opt_view(*message),
                percentage: *percentage,
            },
            ProgressEvent::End { message } => EventView::End { message: opt_view(*message) },
        }
    }
}

/// Why an event shows nothing.
#[derive(Clone, Copy, Debug, PartialEq, Eq, Structural)]
pub enum ProgressIssue {
    /// A report that came too soon after the previous one is dropped.
    TooFast,
    /// The token's progress had begun already.
    AlreadyStarted,
    /// The token's progress had not begun.
    NotStarted,
    /// No server created the token.
    UnknownToken,
}

/// `true` or `false`.
pub open spec fn bool_text(b: bool) -> Seq<char> {
    if b { "true"@ } else { "false"@ }
}

/// A token as the editor's command takes it: a number, or a quoted string.
pub open spec fn token_text(k: ProgressKey) -> Seq<char> {
    match k {
        ProgressKey::Number(n) => int_decimal(n),
        ProgressKey::Text(s) => editor_quote_spec(s),
    }
}

/// An optional text; nothing for none.
pub open spec fn opt_text(m: Option<Seq<char>>) -> Seq<char> {
    match m {
        Some(t) => t,
        None => Seq::empty(),
    }
}

/// An optional percentage in decimal; nothing for none.
pub open spec fn percentage_text(p: Option<u32>) -> Seq<char> {
    match p {
        Some(n) => decimal(n as nat),
        None => Seq::empty(),
    }
}

/// Whether an optional flag is set.
pub open spec fn flag_set(c: Option<bool>) -> bool {
    match c {
        Some(b) => b,
        None => false,
    }
}

/// The editor command that shows a progress event: it sets the progress
/// indicator, then hands the token, title, whether it can be cancelled, the
/// message, the percentage and whether it is done to `lsp-handle-progress`.
pub open spec fn progress_command(
    indicator: Seq<char>,
    key: ProgressKey,
    title: Seq<char>,
    cancelable: bool,
    message: Option<Seq<char>>,
    percentage: Option<u32>,
    done: bool,
) -> Seq<char> {
    progress_head(indicator, key) + progress_fields(title, cancelable, message, percentage, done)
}

/// The command up to the token.
pub open spec fn progress_head(indicator: Seq<char>, key: ProgressKey) -> Seq<char> {
    "set-option global lsp_progress_indicator "@ + indicator + "\nlsp-handle-progress "@ + token_text(key)
}

/// The command's arguments after the token, each after a space.
pub open spec fn progress_fields(
    title: Seq<char>,
    cancelable: bool,
    message: Option<Seq<char>>,
    percentage: Option<u32>,
    done: bool,
) -> Seq<char> {
    quoted_arg(title) + arg(bool_text(cancelable)) + quoted_arg(opt_text(message))
        + quoted_arg(percentage_text(percentage)) + arg(bool_text(done))
}

/// A quoted argument of a command, after a space.
#[verifier::opaque]
pub open spec fn quoted_arg(x: Seq<char>) -> Seq<char> {
    arg(editor_quote_spec(x))
}

/// An argument of a command, after a space.
pub open spec fn arg(x: Seq<char>) -> Seq<char> {
    seq![' '] + x
}

/// The states after an event. A progress begins only for a known token that
/// has not begun; a report, unless it came too fast, updates a begun
/// progress but keeps its title; an end forgets the token, begun or not.
pub open spec fn progress_next(
    table: Map<ProgressKey, Option<BeginView>>,
    key: ProgressKey,
    event: EventView,
    too_fast: bool,
) -> Map<ProgressKey, Option<BeginView>> {
    match event {
        EventView::Begin(b) => if table.contains_key(key) && table[key] is None {
            table.insert(key, Some(b))
        } else {
            table
        },
        EventView::Report { cancellable, message, percentage } => if !too_fast && table.contains_key(key) && table[key] is Some {
            let old = table[key]->0;
            table.insert(key, Some(BeginView { title: old.title, cancellable, message, percentage }))
        } else {
            table
        },
        EventView::End { message } => table.remove(key),
    }
}

/// What an event shows: the command for it, or why there is none.
pub open spec fn progress_result(
    table: Map<ProgressKey, Option<BeginView>>,
    key: ProgressKey,
    event: EventView,
    too_fast: bool,
    indicator: Seq<char>,
) -> Result<Seq<char>, ProgressIssue> {
    match event {
        EventView::Begin(b) => if !table.contains_key(key) {
            Err(ProgressIssue::UnknownToken)
        } else if table[key] is Some {
            Err(ProgressIssue::AlreadyStarted)
        } else {
            Ok(progress_command(indicator, key, b.title, flag_set(b.cancellable), b.message, b.percentage, false))
        },
        EventView::Report { cancellable, message, percentage } => if too_fast {
            Err(ProgressIssue::TooFast)
        } else if !table.contains_key(key) {
            Err(ProgressIssue::UnknownToken)
        } else {
            match table[key] {
                None => Err(ProgressIssue::NotStarted),
                Some(old) => Ok(progress_command(indicator, key, old.title, flag_set(cancellable), message, percentage, false)),
            }
        },
        EventView::End { message } => if !table.contains_key(key) {
            Err(ProgressIssue::UnknownToken)
        } else {
            match table[key] {
                None => Err(ProgressIssue::NotStarted),
                Some(old) => Ok(progress_command(indicator, key, old.title, false, message, Some(100), true)),
            }
        },
    }
}

/// Appends `true` or `false`.
fn push_bool(out: &mut String, b: bool)
    ensures
        final(out)@ == old(out)@ + bool_text(b),
{
    if b {
        push_str(out, "true");
    } else {
        push_str(out, "false");
    }
}

/// Appends the command up to the token; see `progress_head`.
fn push_progress_head(out: &mut String, indicator: &str, token: &ProgressToken)
    ensures
        final(out)@ == old(out)@ + progress_head(indicator@, token@),
{
    let ghost start = out@;
    push_str(out, "set-option global lsp_progress_indicator ");
    push_str(out, indicator);
    push_str(out, "\nlsp-handle-progress ");
    match token {
        ProgressToken::Number(n) => push_int(out, *n),
        ProgressToken::Text(t) => {
            let q = editor_quote(t.as_str());
            push_str(out, q.as_str());
        },
    }
    assert(out@ =~= start + progress_head(indicator@, token@));
}

/// Appends a space and a quoted text.
fn push_quoted_arg(out: &mut String, s: &str)
    ensures
        final(out)@ == old(out)@ + quoted_arg(s@),
{
    let ghost start = out@;
    push_char(out, ' ');
    let q = editor_quote(s);
    push_str(out, q.as_str());
    proof {
        reveal(quoted_arg);
    }
    assert(out@ =~= start + quoted_arg(s@));
}

/// Appends a space and `true` or `false`.
fn push_bool_arg(out: &mut String, b: bool)
    ensures
        final(out)@ == old(out)@ + arg(bool_text(b)),
{
    let ghost start = out@;
    push_char(out, ' ');
    push_bool(out, b);
    assert(out@ =~= start + arg(bool_text(b)));
}

/// Appends the command's arguments after the token; see `progress_fields`.
fn push_progress_fields(
    out: &mut String,
    title: &str,
    cancelable: bool,
    message: &Option<String>,
    percentage: Option<u32>,
    done: bool,
)
    ensures
        final(out)@ == old(out)@ + progress_fields(title@, cancelable, opt_view(*message), percentage, done),
{
    let ghost start = out@;
    let ghost a = quoted_arg(title@);
    let ghost b = arg(bool_text(cancelable));
    let ghost c = quoted_arg(opt_text(opt_view(*message)));
    let ghost d = quoted_arg(percentage_text(percentage));
    let ghost e = arg(bool_text(done));
    push_quoted_arg(out, title);
    push_bool_arg(out, cancelable);
    assert(out@ == start + a + b);
    match message {
        Some(m) => push_quoted_arg(out, m.as_str()),
        None => {
            proof {
                reveal_strlit("");
                assert(""@ =~= opt_text(opt_view(*message)));
            }
            push_quoted_arg(out, "");
        },
    }
    assert(out@ == start + a + b + c);
    let mut p = String::new();
    if let Some(n) = percentage {
        push_decimal(&mut p, n as u64);
    }
    assert(p@ =~= percentage_text(percentage));
    push_quoted_arg(out, p.as_str());
    push_bool_arg(out, done);
    assert(out@ == start + a + b + c + d + e);
    assert(out@ =~= start + (a + b + c + d + e));
}

/// The command that shows a progress event; see `progress_command`.
fn progress_command_text(
    indicator: &str,
    token: &ProgressToken,
    title: &str,
    cancelable: bool,
    message: &Option<String>,
    percentage: Option<u32>,
    done: bool,
) -> (res: String)
    ensures
        res@ == progress_command(indicator@, token@, title@, cancelable, opt_view(*message), percentage, done),
{
    let mut out = String::new();
    push_progress_head(&mut out, indicator, token);
    push_progress_fields(&mut out, title, cancelable, message, percentage, done);
    assert(out@ =~= progress_command(indicator@, token@, title@, cancelable, opt_view(*message), percentage, done));
    out
}

impl WorkDoneProgress {
    /// Takes a progress event of a token: updates the states (see
    /// `progress_next`) and gives the command that shows the event, or why
    /// there is none (see `progress_result`). `report_too_fast` tells
    /// whether a report came too soon after the previous one to be shown;
    /// `indicator` is what the editor shows while a progress runs.
    pub fn progress(&mut self, token: &ProgressToken, event: ProgressEvent, report_too_fast: bool, indicator: &str) -> (res: Result<String, ProgressIssue>)
        ensures
            final(self)@ == progress_next(old(self)@, token@, event@, report_too_fast),
            match res {
                Ok(c) => progress_result(old(self)@, token@, event@, report_too_fast, indicator@) == Ok::<Seq<char>, ProgressIssue>(c@),
                Err(e) => progress_result(old(self)@, token@, event@, report_too_fast, indicator@) == Err::<Seq<char>, ProgressIssue>(e),
            },
    {
        let found = self.find(token);
        match event {
            ProgressEvent::Begin(b) => match found {
                None => Err(ProgressIssue::UnknownToken),
                Some(i) => {
                    if self.entries[i].1.is_some() {
                        Err(ProgressIssue::AlreadyStarted)
                    } else {
                        let cancelable = match b.cancellable {
                            Some(c) => c,
                            None => false,
                        };
                        let command = progress_command_text(indicator, token, b.title.as_str(), cancelable, &b.message, b.percentage, false);
                        self.set_state(i, Some(b));
                        Ok(command)
                    }
                },
            },
            ProgressEvent::Report { cancellable, message, percentage } => {
                if report_too_fast {
                    return Err(ProgressIssue::TooFast);
                }
                match found {
                    None => Err(ProgressIssue::UnknownToken),
                    Some(i) => {
                        let title = match &self.entries[i].1 {
                            None => None,
                            Some(p) => Some(p.title.clone()),
                        };
                        match title {
                            None => Err(ProgressIssue::NotStarted),
                            Some(title) => {
                                let flag = match cancellable {
                                    Some(c) => c,
                                    None => false,
                                };
                                let command = progress_command_text(indicator, token, title.as_str(), flag, &message, percentage, false);
                                let updated = ProgressBegin { title, cancellable, message, percentage };
                                self.set_state(i, Some(updated));
                                Ok(command)
                            },
                        }
                    },
                }
            },
            ProgressEvent::End { message } => match found {
                None => Err(ProgressIssue::UnknownToken),
                Some(i) => match self.remove_at(i) {
                    None => Err(ProgressIssue::NotStarted),
                    Some(b) => Ok(progress_command_text(indicator, token, b.title.as_str(), false, &message, Some(100), true)),
                },
            },
        }
    }
}

/// A progress that a server created and then begins is shown, and its
/// token is then begun with what the beginning said.
pub proof fn lemma_begin_after_create(
    table: Map<ProgressKey, Option<BeginView>>,
    key: ProgressKey,
    begin: BeginView,
    too_fast: bool,
    indicator: Seq<char>,
)
    ensures
        progress_result(create_spec(table, key), key, EventView::Begin(begin), too_fast, indicator)
            == (if table.contains_key(key) && table[key] is Some {
                Err::<Seq<char>, ProgressIssue>(ProgressIssue::AlreadyStarted)
            } else {
                Ok(progress_command(indicator, key, begin.title, flag_set(begin.cancellable), begin.message, begin.percentage, false))
            }),
        !(table.contains_key(key) && table[key] is Some) ==>
            progress_next(create_spec(table, key), key, EventView::Begin(begin), too_fast)[key] == Some(begin),
{
}

/// Creating a token twice is creating it once.
pub proof fn lemma_create_idempotent(table: Map<ProgressKey, Option<BeginView>>, key: ProgressKey)
    ensures
        create_spec(create_spec(table, key), key) == create_spec(table, key),
        create_spec(table, key).contains_key(key),
{
}

/// Once a progress ends its token is forgotten: no later event of it is shown
/// until a server creates it again.
pub proof fn lemma_end_forgets(
    table: Map<ProgressKey, Option<BeginView>>,
    key: ProgressKey,
    message: Option<Seq<char>>,
    later: EventView,
    too_fast: bool,
    later_too_fast: bool,
    indicator: Seq<char>,
)
    ensures
        !progress_next(table, key, EventView::End { message }, too_fast).contains_key(key),
        progress_result(progress_next(table, key, EventView::End { message }, too_fast), key, later, later_too_fast, indicator) is Err,
{
}

/// A report shows and keeps the title that the progress began with.
pub proof fn lemma_report_keeps_title(
    table: Map<ProgressKey, Option<BeginView>>,
    key: ProgressKey,
    cancellable: Option<bool>,
    message: Option<Seq<char>>,
    percentage: Option<u32>,
    indicator: Seq<char>,
)
    requires
        table.contains_key(key),
        table[key] is Some,
    ensures
        ({
            let next = progress_next(table, key, EventView::Report { cancellable, message, percentage }, false);
            &&& next.contains_key(key)
            &&& next[key] == Some(BeginView { title: table[key]->0.title, cancellable, message, percentage })
        }),
        progress_result(table, key, EventView::Report { cancellable, message, percentage }, false, indicator)
            == Ok::<Seq<char>, ProgressIssue>(progress_command(indicator, key, table[key]->0.title, flag_set(cancellable), message, percentage, false)),
{
}

/// A report that came too fast shows nothing and changes nothing.
pub proof fn lemma_too_fast_report_ignored(
    table: Map<ProgressKey, Option<BeginView>>,
    key: ProgressKey,
    cancellable: Option<bool>,
    message: Option<Seq<char>>,
    percentage: Option<u32>,
    indicator: Seq<char>,
)
    ensures
        progress_next(table, key, EventView::Report { cancellable, message, percentage }, true) == table,
        progress_result(table, key, EventView::Report { cancellable, message, percentage }, true, indicator)
            == Err::<Seq<char>, ProgressIssue>(ProgressIssue::TooFast),
{
}

/// An event of one token leaves every other token as it was.
pub proof fn lemma_other_tokens_unchanged(
    table: Map<ProgressKey, Option<BeginView>>,
    key: ProgressKey,
    other: ProgressKey,
    event: EventView,
    too_fast: bool,
)
    requires
        other != key,
    ensures
        progress_next(table, key, event, too_fast).contains_key(other) == table.contains_key(other),
        table.contains_key(other) ==> progress_next(table, key, event, too_fast)[other] == table[other],
        create_spec(table, key).contains_key(other) == table.contains_key(other),
        table.contains_key(other) ==> create_spec(table, key)[other] == table[other],
{
}

} // verus!
