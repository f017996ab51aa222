//! Where a file's project root is: the root the environment forces, else
//! the first of the roots that the environment names for the language that
//! holds the file, else the one found by marker files.

use vstd::prelude::*;
use crate::strings::push_str;
use crate::util::{path_strip_prefix, strip_path_prefix};

verus! {

/// The index of the first root, in the order given, that the directory lies
/// in (that is a prefix of it, component by component, as `Path` decides).
pub open spec fn first_root(roots: Seq<String>, dir: Seq<char>) -> Option<int>
    decreases roots.len(),
{
    if roots.len() == 0 {
        None
    } else {
        match first_root(roots.drop_last(), dir) {
            Some(i) => Some(i),
            None => if path_strip_prefix(dir, roots.last()@) is Some { Some(roots.len() - 1) } else { None },
        }
    }
}

/// The first of the roots that directory `dir` (the file's own directory,
/// or the path itself when it is no file) lies in; see `first_root`.
pub fn roots_by_env(roots: &Vec<String>, dir: &str) -> (res: Option<String>)
    ensures
        match first_root(roots@, dir@) {
            Some(i) => res matches Some(r) && r@ == roots@[i]@,
            None => res is None,
        },
{
    let mut k: usize = 0;
    while k < roots.len()
        invariant
            k <= roots.len(),
            first_root(roots@.take(k as int), dir@) is None,
        decreases roots.len() - k,
    {
        proof {
            assert(roots@.take(k + 1).drop_last() =~= roots@.take(k as int));
        }
        if strip_path_prefix(dir, roots[k].as_str()).is_some() {
            proof {
                lemma_first_root_prefix(roots@, dir@, k as int + 1);
            }
            let mut out = String::new();
            push_str(&mut out, roots[k].as_str());
            return Some(out);
        }
        k = k + 1;
    }
    assert(roots@.take(k as int) =~= roots@);
    None
}

/// The first root of a prefix of the roots is the first root of all of them.
proof fn lemma_first_root_prefix(roots: Seq<String>, dir: Seq<char>, n: int)
    requires
        0 <= n <= roots.len(),
        first_root(roots.take(n), dir) is Some,
    ensures
        first_root(roots, dir) == first_root(roots.take(n), dir),
    decreases roots.len() - n,
{
    if n < roots.len() {
        assert(roots.take(n + 1).drop_last() =~= roots.take(n));
        lemma_first_root_prefix(roots, dir, n + 1);
    } else {
        assert(roots.take(n) =~= roots);
    }
}

/// How a file's project root is found.
pub enum ProjectRoot {
    /// The root that the environment forces for every file.
    Forced(String),
    /// One of the roots that the environment names for the language.
    ByEnv(String),
    /// None of those: the root is looked for by marker files.
    ByMarker,
}

/// A project root as values.
pub enum ProjectRootView {
    Forced(Seq<char>),
    ByEnv(Seq<char>),
    ByMarker,
}

impl ProjectRoot {
    pub open spec fn view(&self) -> ProjectRootView {
        match self {
            ProjectRoot::Forced(r) => ProjectRootView::Forced(r@),
            ProjectRoot::ByEnv(r) => ProjectRootView::ByEnv(r@),
            ProjectRoot::ByMarker => ProjectRootView::ByMarker,
        }
    }
}

/// How a file's project root is found: the forced root where there is one;
/// else the first root the environment names that holds directory `dir`;
/// else by marker files.
pub open spec fn project_root_of(forced: Option<Seq<char>>, env_roots: Seq<String>, dir: Seq<char>) -> ProjectRootView {
    match forced {
        Some(f) => ProjectRootView::Forced(f),
        None => match first_root(env_roots, dir) {
            Some(i) => ProjectRootView::ByEnv(env_roots[i]@),
            None => ProjectRootView::ByMarker,
        },
    }
}

/// How a file's project root is found; see `project_root_of`.
pub fn find_project_root(forced: Option<&str>, env_roots: &Vec<String>, dir: &str) -> (res: ProjectRoot)
    ensures
        res@ == project_root_of(match forced { Some(f) => Some(f@), None => None }, env_roots@, dir@),
{
    match forced {
        Some(f) => {
            let mut out = String::new();
            push_str(&mut out, f);
            ProjectRoot::Forced(out)
        },
        None => match roots_by_env(env_roots, dir) {
            Some(r) => ProjectRoot::ByEnv(r),
            None => ProjectRoot::ByMarker,
        },
    }
}

} // verus!
