//! The legacy configuration, with a `language` table keyed by language id,
//! turned into the current one: each language becomes a server entry named
//! after the language and its command.

use vstd::prelude::*;
use crate::strings::{push_char, push_str};

verus! {

/// A language (or server) entry of the configuration: its command, and
/// the rest of its settings, carried through as they are.
pub struct LanguageConfig<C> {
    pub command: Option<String>,
    pub rest: C,
}

/// An entry as values.
pub struct LanguageConfigView<C> {
    pub command: Option<Seq<char>>,
    pub rest: C,
}

impl<C> LanguageConfig<C> {
    pub open spec fn view(&self) -> LanguageConfigView<C> {
        LanguageConfigView {
            command: match self.command {
                Some(c) => Some(c@),
                None => None,
            },
            rest: self.rest,
        }
    }
}

pub open spec fn entries_view<C>(t: Seq<(String, LanguageConfig<C>)>) -> Seq<(Seq<char>, LanguageConfigView<C>)> {
    t.map_values(|e: (String, LanguageConfig<C>)| (e.0@, e.1.view()))
}

/// Why a legacy configuration cannot be turned into a current one.
#[derive(Clone, Copy, Debug, PartialEq, Eq, Structural)]
pub enum LegacyConfigError {
    /// The legacy `language` table stands beside `language_server` or
    /// `language_ids`.
    IncompatibleTables,
    /// A legacy language has no command.
    MissingCommand,
}

/// The name of the server entry for a legacy language: `id:command`.
pub open spec fn legacy_server_name(id: Seq<char>, command: Seq<char>) -> Seq<char> {
    id + ":"@ + command
}

/// The server entries of a configuration with legacy `language` entries,
/// `language_server` entries, and language ids or not: the legacy table
/// cannot stand beside the others; without server entries, each language
/// becomes one, in order, named `id:command`, and every language needs a
/// command; with server entries, they stay as they are.
pub open spec fn legacy_translation<C>(
    language: Seq<(Seq<char>, LanguageConfigView<C>)>,
    language_server: Seq<(Seq<char>, LanguageConfigView<C>)>,
    has_language_ids: bool,
) -> Result<Seq<(Seq<char>, LanguageConfigView<C>)>, LegacyConfigError> {
    if language.len() > 0 && (language_server.len() > 0 || has_language_ids) {
        Err(LegacyConfigError::IncompatibleTables)
    } else if language_server.len() == 0 {
        if exists|i: int| 0 <= i < language.len() && (#[trigger] language[i]).1.command is None {
            Err(LegacyConfigError::MissingCommand)
        } else {
            Ok(language.map_values(|e: (Seq<char>, LanguageConfigView<C>)| (legacy_server_name(e.0, e.1.command->0), e.1)))
        }
    } else {
        Ok(language_server)
    }
}

/// A result as values.
pub open spec fn legacy_result_view<C>(r: Result<Vec<(String, LanguageConfig<C>)>, LegacyConfigError>) -> Result<Seq<(Seq<char>, LanguageConfigView<C>)>, LegacyConfigError> {
    match r {
        Ok(v) => Ok(entries_view(v@)),
        Err(e) => Err(e),
    }
}

/// Turns a legacy configuration into server entries; see
/// `legacy_translation`.
pub fn translate_legacy_config<C>(
    language: Vec<(String, LanguageConfig<C>)>,
    language_server: Vec<(String, LanguageConfig<C>)>,
    has_language_ids: bool,
) -> (res: Result<Vec<(String, LanguageConfig<C>)>, LegacyConfigError>)
    ensures
        legacy_result_view(res) == legacy_translation(entries_view(language@), entries_view(language_server@), has_language_ids),
{
    let ghost lv = entries_view(language@);
    if language.len() > 0 && (language_server.len() > 0 || has_language_ids) {
        return Err(LegacyConfigError::IncompatibleTables);
    }
    if language_server.len() > 0 {
        return Ok(language_server);
    }
    let mut i: usize = 0;
    while i < language.len()
        invariant
            i <= language.len(),
            lv == entries_view(language@),
            forall|j: int| 0 <= j < i ==> (#[trigger] lv[j]).1.command is Some,
            language_server@.len() == 0,
            language.len() > 0 ==> !has_language_ids,
        decreases language.len() - i,
    {
        assert(lv[i as int] == (language@[i as int].0@, language@[i as int].1.view()));
        if language[i].1.command.is_none() {
            assert(lv[i as int].1.command is None);
            return Err(LegacyConfigError::MissingCommand);
        }
        i += 1;
    }
    let ghost named = lv.map_values(|e: (Seq<char>, LanguageConfigView<C>)| (legacy_server_name(e.0, e.1.command->0), e.1));
    let n = language.len();
    let mut rest = language;
    let mut out: Vec<(String, LanguageConfig<C>)> = Vec::new();
    let mut k: usize = 0;
    while k < n
        invariant
            k <= n,
            n == lv.len(),
            rest.len() == n - k,
            entries_view(rest@) == lv.skip(k as int),
            entries_view(out@) == named.take(k as int),
            forall|j: int| 0 <= j < lv.len() ==> (#[trigger] lv[j]).1.command is Some,
            named == lv.map_values(|e: (Seq<char>, LanguageConfigView<C>)| (legacy_server_name(e.0, e.1.command->0), e.1)),
        decreases n - k,
    {
        let ghost before_rest = rest@;
        let (id, config) = rest.remove(0);
        proof {
            assert(entries_view(before_rest)[0] == lv[k as int]);
            assert(lv[k as int] == (id@, config.view()));
            assert(entries_view(rest@) =~= lv.skip(k + 1)) by {
                assert(rest@ =~= before_rest.skip(1));
                assert forall|j: int| 0 <= j < rest@.len() implies entries_view(rest@)[j] == lv.skip(k + 1)[j] by {
                    assert(rest@[j] == before_rest[j + 1]);
                    assert(entries_view(before_rest)[j + 1] == lv.skip(k as int)[j + 1]);
                }
            }
        }
        let mut name = String::new();
        push_str(&mut name, id.as_str());
        push_char(&mut name, ':');
        match &config.command {
            Some(c) => push_str(&mut name, c.as_str()),
            None => {},
        }
        proof {
            reveal_strlit(":");
            assert(config.view().command is Some);
            assert(name@ =~= legacy_server_name(id@, config.view().command->0));
        }
        let ghost before_out = out@;
        out.push((name, config));
        proof {
            assert(entries_view(out@) =~= entries_view(before_out).push((name@, config.view())));
            assert(named.take(k + 1) =~= named.take(k as int).push(named[k as int]));
        }
        k += 1;
    }
    proof {
        assert(named.take(n as int) =~= named);
        assert(!(exists|j: int| 0 <= j < lv.len() && (#[trigger] lv[j]).1.command is None));
    }
    Ok(out)
}


/// Languages that share a server are all kept: without server entries,
/// every language becomes an entry of its own, and languages with different
/// ids (which hold no `:`) get differently named entries, whatever their
/// commands.
pub proof fn lemma_every_language_kept<C>(language: Seq<(Seq<char>, LanguageConfigView<C>)>, has_language_ids: bool, i: int, j: int)
    requires
        legacy_translation(language, Seq::empty(), has_language_ids) is Ok,
        0 <= i < language.len(),
        0 <= j < language.len(),
        language[i].0 != language[j].0,
        !language[i].0.contains(':'),
        !language[j].0.contains(':'),
    ensures
        legacy_translation(language, Seq::empty(), has_language_ids).unwrap().len() == language.len(),
        legacy_translation(language, Seq::empty(), has_language_ids).unwrap()[i].0 != legacy_translation(language, Seq::empty(), has_language_ids).unwrap()[j].0,
{
    reveal_strlit(":");
    let a = language[i].0;
    let b = language[j].0;
    let na = legacy_server_name(a, language[i].1.command->0);
    let nb = legacy_server_name(b, language[j].1.command->0);
    if na == nb {
        if a.len() < b.len() {
            assert(na[a.len() as int] == ':');
            assert(nb[a.len() as int] == b[a.len() as int]);
            assert(b.contains(':'));
        } else if b.len() < a.len() {
            assert(nb[b.len() as int] == ':');
            assert(na[b.len() as int] == a[b.len() as int]);
            assert(a.contains(':'));
        } else {
            assert forall|k: int| 0 <= k < a.len() implies a[k] == b[k] by {
                assert(na[k] == a[k]);
                assert(nb[k] == b[k]);
            }
            assert(a =~= b);
        }
    }
}

} // verus!
