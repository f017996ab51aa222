//! Keeping servers in step with the editor's buffers: which changes are
//! sent, which saves are announced, and which changes of files on disk
//! servers are told of.

use vstd::prelude::*;
use crate::strings::chars_of;

verus! {

// ---------------------------------------------------------------------------
// Changes and saves

/// The version a document is known at: its version, or 0 for a document
/// not opened yet.
pub open spec fn known_version(old_version: Option<i32>) -> i32 {
    match old_version {
        Some(v) => v,
        None => 0,
    }
}

/// Whether a change to a document at `version` is taken (and sent to the
/// servers): only one that is newer than the version known.
pub fn accepts_change(old_version: Option<i32>, version: i32) -> (res: bool)
    ensures
        res == (known_version(old_version) < version),
{
    let known = match old_version {
        Some(v) => v,
        None => 0,
    };
    known < version
}

/// What a server asked to be told of saves: nothing; whether it is told at
/// all; or options, with whether the saved text comes along.
#[derive(Clone, Copy, Debug)]
pub enum SaveOptions {
    NotAsked,
    Supported(bool),
    Options { include_text: Option<bool> },
}

/// Whether a server is told of a save (`Some`), and then whether the text
/// comes along: it is told when it asked for it, with the text when its
/// options ask for the text.
pub open spec fn save_notice(o: SaveOptions) -> Option<bool> {
    match o {
        SaveOptions::NotAsked => None,
        SaveOptions::Supported(b) => if b { Some(false) } else { None },
        SaveOptions::Options { include_text } => Some(include_text == Some(true)),
    }
}

/// Whether a server is told of a save, and with the text; see
/// `save_notice`.
pub fn did_save_notice(options: SaveOptions) -> (res: Option<bool>)
    ensures
        res == save_notice(options),
{
    match options {
        SaveOptions::NotAsked => None,
        SaveOptions::Supported(b) => if b { Some(false) } else { None },
        SaveOptions::Options { include_text } => Some(
            match include_text {
                Some(t) => t,
                None => false,
            },
        ),
    }
}

// ---------------------------------------------------------------------------
// Watched files

/// Whether a glob pattern compiles, as `glob::Pattern::new` decides.
pub uninterp spec fn glob_valid(pattern: Seq<char>) -> bool;

/// Whether a glob pattern compiles and matches a path, as `glob::Pattern`
/// decides with its default options.
pub uninterp spec fn glob_match(pattern: Seq<char>, path: Seq<char>) -> bool;

/// `glob::Pattern::new`: whether a pattern compiles. Stated only as the
/// named result `glob_valid`.
#[verifier::external_body]
fn pattern_compiles(pattern: &str) -> (res: bool)
    ensures
        res == glob_valid(pattern@),
{
    glob::Pattern::new(pattern).is_ok()
}

/// `glob::Pattern::matches` on the pattern compiled from `pattern` (false
/// where it does not compile). Stated only as the named result `glob_match`.
#[verifier::external_body]
fn pattern_matches(pattern: &str, path: &str) -> (res: bool)
    ensures
        res == glob_match(pattern@, path@),
{
    glob::Pattern::new(pattern).map_or(false, |p| p.matches(path))
}

/// The changes a watcher asks to be told of.
#[derive(Clone, Copy, Debug, PartialEq, Eq, Structural)]
pub struct WatchKind {
    pub create: bool,
    pub change: bool,
    pub delete: bool,
}

/// How a watched file changed.
#[derive(Clone, Copy, Debug, PartialEq, Eq, Structural)]
pub enum FileChangeType {
    Created,
    Changed,
    Deleted,
}

/// What the file system reported of a path.
#[derive(Clone, Copy, Debug, PartialEq, Eq, Structural)]
pub enum WatchEventKind {
    Any,
    Access,
    Create,
    Modify,
    Remove,
    Other,
}

/// A server's request to be told of changes to the files whose paths match
/// a glob pattern.
#[derive(Clone, Debug)]
pub struct CompiledFileSystemWatcher {
    pub kind: WatchKind,
    pub pattern: String,
}

/// A pattern as a server writes it: plain, or relative to a base (here its
/// path; none where the base is not a file).
#[derive(Clone, Debug)]
pub enum GlobPattern {
    Plain(String),
    Relative { base_path: Option<String>, pattern: String },
}

/// A watcher as a server asks for it; without a kind it asks for all
/// changes.
#[derive(Clone, Debug)]
pub struct FileSystemWatcher {
    pub glob_pattern: GlobPattern,
    pub kind: Option<WatchKind>,
}

/// The change that an event reports, if it reports one.
pub open spec fn change_type(k: WatchEventKind) -> Option<FileChangeType> {
    match k {
        WatchEventKind::Create => Some(FileChangeType::Created),
        WatchEventKind::Modify => Some(FileChangeType::Changed),
        WatchEventKind::Remove => Some(FileChangeType::Deleted),
        _ => None,
    }
}

/// Whether a watcher of these kinds asks for a change.
pub open spec fn asks_for(kind: WatchKind, t: FileChangeType) -> bool {
    match t {
        FileChangeType::Created => kind.create,
        FileChangeType::Changed => kind.change,
        FileChangeType::Deleted => kind.delete,
    }
}

/// Whether one of the watchers asks for a change of this path.
pub open spec fn watched(ws: Seq<CompiledFileSystemWatcher>, t: FileChangeType, path: Seq<char>) -> bool {
    exists|i: int| 0 <= i < ws.len() && asks_for((#[trigger] ws[i]).kind, t) && glob_match(ws[i].pattern@, path)
}

/// The changes that an event of kind `k` on `paths` reports to the
/// watchers: a path (but the log file's) with its change, when a watcher
/// asks for that change of that path; each path at most once.
pub open spec fn event_changes(
    log_path: Option<Seq<char>>,
    ws: Seq<CompiledFileSystemWatcher>,
    k: WatchEventKind,
    paths: Seq<Seq<char>>,
) -> Seq<(Seq<char>, FileChangeType)>
    decreases paths.len(),
{
    if paths.len() == 0 {
        Seq::empty()
    } else {
        let p = paths.last();
        event_changes(log_path, ws, k, paths.drop_last()) + match change_type(k) {
            Some(t) => if log_path != Some(p) && watched(ws, t, p) { seq![(p, t)] } else { Seq::empty() },
            None => Seq::empty(),
        }
    }
}

/// Every change an event reports has the type of the event: a creation is
/// reported as created, a modification as changed, a removal as deleted, and
/// other events report nothing; each change names one of the event's paths,
/// never the log file, and a watcher that matches the path asks for that
/// type of change.
pub proof fn lemma_event_change_types(
    log_path: Option<Seq<char>>,
    ws: Seq<CompiledFileSystemWatcher>,
    k: WatchEventKind,
    paths: Seq<Seq<char>>,
)
    ensures
        forall|i: int| 0 <= i < event_changes(log_path, ws, k, paths).len() ==> {
            let (p, t) = #[trigger] event_changes(log_path, ws, k, paths)[i];
            &&& (k == WatchEventKind::Create ==> t == FileChangeType::Created)
            &&& (k == WatchEventKind::Modify ==> t == FileChangeType::Changed)
            &&& (k == WatchEventKind::Remove ==> t == FileChangeType::Deleted)
            &&& (k == WatchEventKind::Create || k == WatchEventKind::Modify || k == WatchEventKind::Remove)
            &&& paths.contains(p)
            &&& log_path != Some(p)
            &&& exists|j: int| 0 <= j < ws.len() && glob_match((#[trigger] ws[j]).pattern@, p) && match t {
                FileChangeType::Created => ws[j].kind.create,
                FileChangeType::Changed => ws[j].kind.change,
                FileChangeType::Deleted => ws[j].kind.delete,
            }
        },
    decreases paths.len(),
{
    if paths.len() > 0 {
        let d = paths.drop_last();
        lemma_event_change_types(log_path, ws, k, d);
        let prev = event_changes(log_path, ws, k, d);
        let all = event_changes(log_path, ws, k, paths);
        assert forall|i: int| 0 <= i < all.len() implies {
            let (p, t) = #[trigger] all[i];
            &&& (k == WatchEventKind::Create ==> t == FileChangeType::Created)
            &&& (k == WatchEventKind::Modify ==> t == FileChangeType::Changed)
            &&& (k == WatchEventKind::Remove ==> t == FileChangeType::Deleted)
            &&& (k == WatchEventKind::Create || k == WatchEventKind::Modify || k == WatchEventKind::Remove)
            &&& paths.contains(p)
            &&& log_path != Some(p)
            &&& exists|j: int| 0 <= j < ws.len() && glob_match((#[trigger] ws[j]).pattern@, p) && match t {
                FileChangeType::Created => ws[j].kind.create,
                FileChangeType::Changed => ws[j].kind.change,
                FileChangeType::Deleted => ws[j].kind.delete,
            }
        } by {
            if i < prev.len() {
                assert(all[i] == prev[i]);
                let p = prev[i].0;
                assert(d.contains(p));
                let m = choose|m: int| 0 <= m < d.len() && d[m] == p;
                assert(paths[m] == p);
            } else {
                assert(all[i] == (paths.last(), change_type(k)->0));
                assert(paths[paths.len() - 1] == paths.last());
            }
        }
    }
}

/// A removal of a path that a watcher asking for deletions matches is
/// reported as a deletion of that path (the log file aside); likewise a
/// creation as created and a modification as changed.
pub proof fn lemma_event_reported(
    log_path: Option<Seq<char>>,
    ws: Seq<CompiledFileSystemWatcher>,
    k: WatchEventKind,
    paths: Seq<Seq<char>>,
    i: int,
    j: int,
)
    requires
        0 <= i < paths.len(),
        0 <= j < ws.len(),
        log_path != Some(paths[i]),
        glob_match(ws[j].pattern@, paths[i]),
        k == WatchEventKind::Remove ==> ws[j].kind.delete,
        k == WatchEventKind::Create ==> ws[j].kind.create,
        k == WatchEventKind::Modify ==> ws[j].kind.change,
        k == WatchEventKind::Remove || k == WatchEventKind::Create || k == WatchEventKind::Modify,
    ensures
        k == WatchEventKind::Remove ==> event_changes(log_path, ws, k, paths).contains((paths[i], FileChangeType::Deleted)),
        k == WatchEventKind::Create ==> event_changes(log_path, ws, k, paths).contains((paths[i], FileChangeType::Created)),
        k == WatchEventKind::Modify ==> event_changes(log_path, ws, k, paths).contains((paths[i], FileChangeType::Changed)),
    decreases paths.len(),
{
    let d = paths.drop_last();
    let prev = event_changes(log_path, ws, k, d);
    let all = event_changes(log_path, ws, k, paths);
    assert(all.subrange(0, prev.len() as int) =~= prev);
    if i < paths.len() - 1 {
        assert(d[i] == paths[i]);
        lemma_event_reported(log_path, ws, k, d, i, j);
        let t = if k == WatchEventKind::Remove { FileChangeType::Deleted } else if k == WatchEventKind::Create { FileChangeType::Created } else { FileChangeType::Changed };
        let m = choose|m: int| 0 <= m < prev.len() && prev[m] == (paths[i], t);
        assert(all[m] == prev[m]);
    } else {
        let t = change_type(k)->0;
        assert(asks_for(ws[j].kind, t));
        assert(watched(ws, t, paths[i]));
        assert(all[prev.len() as int] == (paths[i], t));
    }
}

/// The changes as values.
pub open spec fn changes_view(cs: Seq<(String, FileChangeType)>) -> Seq<(Seq<char>, FileChangeType)> {
    cs.map_values(|c: (String, FileChangeType)| (c.0@, c.1))
}

/// Adds to `file_changes` the changes that an event reports to the
/// watchers; see `event_changes`.
pub fn event_file_changes(
    file_changes: &mut Vec<(String, FileChangeType)>,
    log_path: Option<&str>,
    watch_requests: &Vec<CompiledFileSystemWatcher>,
    kind: WatchEventKind,
    paths: &Vec<String>,
)
    ensures
        changes_view(final(file_changes)@) == changes_view(old(file_changes)@) + event_changes(
            match log_path { Some(l) => Some(l@), None => None },
            watch_requests@,
            kind,
            paths@.map_values(|p: String| p@),
        ),
{
    let ghost lp = match log_path { Some(l) => Some(l@), None => None::<Seq<char>> };
    let ghost pv = paths@.map_values(|p: String| p@);
    let ghost start = changes_view(file_changes@);
    let t = match kind {
        WatchEventKind::Create => Some(FileChangeType::Created),
        WatchEventKind::Modify => Some(FileChangeType::Changed),
        WatchEventKind::Remove => Some(FileChangeType::Deleted),
        _ => None,
    };
    let mut k: usize = 0;
    while k < paths.len()
        invariant
            k <= paths.len(),
            t == change_type(kind),
            lp == match log_path { Some(l) => Some(l@), None => None::<Seq<char>> },
            pv == paths@.map_values(|p: String| p@),
            changes_view(file_changes@) == start + event_changes(lp, watch_requests@, kind, pv.take(k as int)),
        decreases paths.len() - k,
    {
        let path = paths[k].as_str();
        proof {
            assert(pv.take(k + 1).drop_last() =~= pv.take(k as int));
            assert(pv.take(k + 1).last() == path@);
        }
        let ghost before = changes_view(file_changes@);
        let is_log = match log_path {
            Some(l) => crate::strings::str_eq(l, path),
            None => false,
        };
        match t {
            Some(change) => {
                if !is_log {
                    let mut i: usize = 0;
                    let mut found = false;
                    while i < watch_requests.len() && !found
                        invariant
                            i <= watch_requests.len(),
                            found ==> watched(watch_requests@, change, path@),
                            !found ==> forall|j: int| 0 <= j < i ==> !(asks_for((#[trigger] watch_requests@[j]).kind, change)
                                && glob_match(watch_requests@[j].pattern@, path@)),
                        decreases 2 * (watch_requests.len() - i) + (if found { 0int } else { 1int }),
                    {
                        let w = &watch_requests[i];
                        let asked = match change {
                            FileChangeType::Created => w.kind.create,
                            FileChangeType::Changed => w.kind.change,
                            FileChangeType::Deleted => w.kind.delete,
                        };
                        if asked && pattern_matches(w.pattern.as_str(), path) {
                            found = true;
                        } else {
                            i = i + 1;
                        }
                    }
                    if found {
                        let mut p = String::new();
                        crate::strings::push_str(&mut p, path);
                        file_changes.push((p, change));
                        proof {
                            assert(changes_view(file_changes@) =~= before.push((path@, change)));
                        }
                    } else {
                        proof {
                            assert(!watched(watch_requests@, change, path@));
                            assert(changes_view(file_changes@) =~= before);
                        }
                    }
                } else {
                    assert(changes_view(file_changes@) =~= before);
                }
            },
            None => {
                assert(changes_view(file_changes@) =~= before);
            },
        }
        k = k + 1;
    }
    assert(pv.take(k as int) =~= pv);
}

/// The text of a pattern, without its base.
pub open spec fn bare_pattern(g: GlobPattern) -> Seq<char> {
    match g {
        GlobPattern::Plain(p) => p@,
        GlobPattern::Relative { pattern, .. } => pattern@,
    }
}

/// The kinds a watcher asks for when it names none: all.
pub open spec fn all_kinds() -> WatchKind {
    WatchKind { create: true, change: true, delete: true }
}

/// What is kept of a watcher a server asks for: the path it is relative to
/// (none for a plain pattern), its kinds and its pattern. A pattern with
/// braces (which the glob patterns here cannot express), relative to a base
/// that is not a file, or that does not compile, is not kept.
pub open spec fn kept_watcher(w: FileSystemWatcher) -> Option<(Option<Seq<char>>, WatchKind, Seq<char>)> {
    let kind = match w.kind {
        Some(k) => k,
        None => all_kinds(),
    };
    if bare_pattern(w.glob_pattern).contains('{') {
        None
    } else {
        match w.glob_pattern {
            GlobPattern::Plain(p) => if glob_valid(p@) { Some((None, kind, p@)) } else { None },
            GlobPattern::Relative { base_path, pattern } => match base_path {
                Some(b) => if glob_valid(pattern@) { Some((Some(b@), kind, pattern@)) } else { None },
                None => None,
            },
        }
    }
}

/// The watchers kept of those at the front of `ws`, in their order.
pub open spec fn kept_watchers(ws: Seq<FileSystemWatcher>) -> Seq<(Option<Seq<char>>, WatchKind, Seq<char>)>
    decreases ws.len(),
{
    if ws.len() == 0 {
        Seq::empty()
    } else {
        kept_watchers(ws.drop_last()) + match kept_watcher(ws.last()) {
            Some(k) => seq![k],
            None => Seq::empty(),
        }
    }
}

/// Compiled watchers as values.
pub open spec fn compiled_view(cs: Seq<(Option<String>, CompiledFileSystemWatcher)>) -> Seq<(Option<Seq<char>>, WatchKind, Seq<char>)> {
    cs.map_values(|c: (Option<String>, CompiledFileSystemWatcher)| (
        match c.0 {
            Some(r) => Some(r@),
            None => None,
        },
        c.1.kind,
        c.1.pattern@,
    ))
}

fn has_brace(s: &str) -> (res: bool)
    ensures
        res == s@.contains('{'),
{
    let cs = chars_of(s);
    let mut k: usize = 0;
    while k < cs.len()
        invariant
            k <= cs.len(),
            cs@ == s@,
            forall|j: int| 0 <= j < k ==> cs@[j] != '{',
        decreases cs.len() - k,
    {
        if cs[k] == '{' {
            assert(s@[k as int] == '{');
            return true;
        }
        k = k + 1;
    }
    false
}

fn copy_string(s: &str) -> (res: String)
    ensures
        res@ == s@,
{
    let mut out = String::new();
    crate::strings::push_str(&mut out, s);
    out
}

/// The watchers kept of those a server asks for; see `kept_watchers`.
pub fn compile_watchers(watchers: &Vec<FileSystemWatcher>) -> (res: Vec<(Option<String>, CompiledFileSystemWatcher)>)
    ensures
        compiled_view(res@) == kept_watchers(watchers@),
{
    let mut out: Vec<(Option<String>, CompiledFileSystemWatcher)> = Vec::new();
    let mut k: usize = 0;
    while k < watchers.len()
        invariant
            k <= watchers.len(),
            compiled_view(out@) == kept_watchers(watchers@.take(k as int)),
        decreases watchers.len() - k,
    {
        let w = &watchers[k];
        proof {
            assert(watchers@.take(k + 1).drop_last() =~= watchers@.take(k as int));
            assert(watchers@.take(k + 1).last() == *w);
        }
        let ghost before = compiled_view(out@);
        let kind = match w.kind {
            Some(kd) => kd,
            None => WatchKind { create: true, change: true, delete: true },
        };
        let bare: &str = match &w.glob_pattern {
            GlobPattern::Plain(p) => p.as_str(),
            GlobPattern::Relative { pattern, .. } => pattern.as_str(),
        };
        let entry: Option<(Option<String>, CompiledFileSystemWatcher)> = if has_brace(bare) {
            None
        } else {
            match &w.glob_pattern {
                GlobPattern::Plain(p) => if pattern_compiles(p.as_str()) {
                    Some((None, CompiledFileSystemWatcher { kind, pattern: copy_string(p.as_str()) }))
                } else {
                    None
                },
                GlobPattern::Relative { base_path, pattern } => match base_path {
                    Some(b) => if pattern_compiles(pattern.as_str()) {
                        Some((Some(copy_string(b.as_str())), CompiledFileSystemWatcher { kind, pattern: copy_string(pattern.as_str()) }))
                    } else {
                        None
                    },
                    None => None,
                },
            }
        };
        match entry {
            Some(e) => {
                out.push(e);
                proof {
                    let c = out@.last();
                    assert(compiled_view(out@) =~= before.push((
                        match c.0 { Some(r) => Some(r@), None => None::<Seq<char>> },
                        c.1.kind,
                        c.1.pattern@,
                    )));
                }
            },
            None => {},
        }
        k = k + 1;
    }
    assert(watchers@.take(k as int) =~= watchers@);
    out
}

} // verus!
