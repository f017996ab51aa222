//! Settings written as flattened keys (`a.b=1`) exploded into nested
//! tables (`{"a": {"b": 1}}`).

use vstd::prelude::*;
use crate::strings::{chars_of, push_char, str_eq};

verus! {

#[verifier::external_type_specification]
#[verifier::external_body]
pub struct ExJsonValue(serde_json::Value);

/// A setting's value: a table of named settings, or any other value.
pub enum SettingValue {
    Table(Vec<(String, SettingValue)>),
    Value(serde_json::Value),
}

/// A setting's value, with its names as text.
pub enum SettingView {
    Table(Seq<(Seq<char>, SettingView)>),
    Value(serde_json::Value),
}

/// The view of a value.
pub open spec fn setting_view(v: SettingValue) -> SettingView
    decreases v,
{
    match v {
        SettingValue::Value(j) => SettingView::Value(j),
        SettingValue::Table(t) => SettingView::Table(table_view_upto(t@, t@.len() as int)),
    }
}

/// The views of the first `n` entries of a table.
pub open spec fn table_view_upto(t: Seq<(String, SettingValue)>, n: int) -> Seq<(Seq<char>, SettingView)>
    decreases t, n,
{
    if n <= 0 || n > t.len() {
        Seq::empty()
    } else {
        table_view_upto(t, n - 1).push((t[n - 1].0@, setting_view(t[n - 1].1)))
    }
}


/// The view of a table.
pub open spec fn table_view(t: Seq<(String, SettingValue)>) -> Seq<(Seq<char>, SettingView)> {
    table_view_upto(t, t.len() as int)
}

proof fn lemma_table_view_upto(t: Seq<(String, SettingValue)>, n: int)
    requires
        0 <= n <= t.len(),
    ensures
        table_view_upto(t, n).len() == n,
        forall|j: int| 0 <= j < n ==> #[trigger] table_view_upto(t, n)[j] == (t[j].0@, setting_view(t[j].1)),
    decreases n,
{
    if n > 0 {
        lemma_table_view_upto(t, n - 1);
    }
}

/// A table's view has an entry for each entry, with its name as text.
pub proof fn lemma_table_view(t: Seq<(String, SettingValue)>)
    ensures
        table_view(t).len() == t.len(),
        forall|j: int| 0 <= j < t.len() ==> #[trigger] table_view(t)[j] == (t[j].0@, setting_view(t[j].1)),
{
    lemma_table_view_upto(t, t.len() as int);
}

/// The index of the first entry named `key`.
pub open spec fn find_key(t: Seq<(Seq<char>, SettingView)>, key: Seq<char>) -> Option<int>
    decreases t.len(),
{
    if t.len() == 0 {
        None
    } else {
        match find_key(t.drop_last(), key) {
            Some(i) => Some(i),
            None => if t.last().0 == key { Some(t.len() - 1) } else { None },
        }
    }
}

proof fn lemma_find_key(t: Seq<(Seq<char>, SettingView)>, key: Seq<char>)
    ensures
        match find_key(t, key) {
            Some(i) => 0 <= i < t.len() && t[i].0 == key && forall|j: int| 0 <= j < i ==> t[j].0 != key,
            None => forall|j: int| 0 <= j < t.len() ==> t[j].0 != key,
        },
    decreases t.len(),
{
    if t.len() > 0 {
        let d = t.drop_last();
        lemma_find_key(d, key);
        assert forall|j: int| 0 <= j < d.len() implies d[j] == t[j] by {}
    }
}

/// What inserting a setting came to: it was new, it replaced this value (it
/// is set all the same), or a name on its path holds a value that is not a
/// table (and nothing is set).
pub enum InsertOutcome {
    Inserted,
    Replaced(SettingView),
    NotATable(Seq<char>),
}

/// The table after setting `key`, inside the tables named by `path` (made
/// where they are missing), to `v`; and what it came to.
pub open spec fn insert_setting(
    t: Seq<(Seq<char>, SettingView)>,
    path: Seq<Seq<char>>,
    key: Seq<char>,
    v: SettingView,
) -> (Seq<(Seq<char>, SettingView)>, InsertOutcome)
    decreases path.len(),
{
    if path.len() == 0 {
        match find_key(t, key) {
            Some(i) => (t.update(i, (key, v)), InsertOutcome::Replaced(t[i].1)),
            None => (t.push((key, v)), InsertOutcome::Inserted),
        }
    } else {
        let name = path[0];
        match find_key(t, name) {
            None => {
                let (sub, o) = insert_setting(Seq::empty(), path.drop_first(), key, v);
                (t.push((name, SettingView::Table(sub))), o)
            },
            Some(i) => match t[i].1 {
                SettingView::Table(inner) => {
                    let (sub, o) = insert_setting(inner, path.drop_first(), key, v);
                    (t.update(i, (name, SettingView::Table(sub))), o)
                },
                SettingView::Value(_) => (t, InsertOutcome::NotATable(name)),
            },
        }
    }
}

/// Why a setting was not set as it stands: it replaced this value (and is
/// set all the same), or a name on its path holds a value that is not a
/// table.
pub enum SettingError {
    Replaced(SettingValue),
    NotATable(String),
}

/// The outcome that a result stands for.
pub open spec fn outcome_of(r: Result<(), SettingError>) -> InsertOutcome {
    match r {
        Ok(()) => InsertOutcome::Inserted,
        Err(SettingError::Replaced(old)) => InsertOutcome::Replaced(setting_view(old)),
        Err(SettingError::NotATable(n)) => InsertOutcome::NotATable(n@),
    }
}

/// The names of a path, as text.
pub open spec fn names_view(path: Seq<String>) -> Seq<Seq<char>> {
    path.map_values(|s: String| s@)
}

/// The index of the entry named `key`; see `find_key`.
fn find_entry(table: &Vec<(String, SettingValue)>, key: &str) -> (res: Option<usize>)
    ensures
        match res {
            Some(i) => find_key(table_view(table@), key@) == Some(i as int) && i < table.len() && table@[i as int].0@ == key@,
            None => find_key(table_view(table@), key@) is None,
        },
{
    proof {
        lemma_table_view(table@);
        lemma_find_key(table_view(table@), key@);
    }
    let mut k: usize = 0;
    while k < table.len()
        invariant
            k <= table.len(),
            forall|j: int| 0 <= j < k ==> (#[trigger] table@[j]).0@ != key@,
        decreases table.len() - k,
    {
        if str_eq(table[k].0.as_str(), key) {
            proof {
                lemma_table_view(table@);
                lemma_find_key(table_view(table@), key@);
                let f = find_key(table_view(table@), key@);
                assert(table_view(table@)[k as int].0 == table@[k as int].0@);
                if f is Some {
                    let i = f->0;
                    assert(table_view(table@)[i].0 == table@[i].0@);
                    if i < k {
                        assert(table@[i].0@ != key@);
                    }
                }
            }
            return Some(k);
        }
        k = k + 1;
    }
    proof {
        lemma_table_view(table@);
        lemma_find_key(table_view(table@), key@);
        let f = find_key(table_view(table@), key@);
        if f is Some {
            let i = f->0;
            assert(table_view(table@)[i].0 == table@[i].0@);
        }
    }
    None
}

/// Sets `local_key`, inside the tables named by `path` from `from` on, to
/// `value`; see `insert_setting`.
pub fn insert_value(
    table: &mut Vec<(String, SettingValue)>,
    path: &Vec<String>,
    from: usize,
    local_key: String,
    value: SettingValue,
) -> (res: Result<(), SettingError>)
    requires
        from <= path.len(),
    ensures
        (table_view(final(table)@), outcome_of(res)) == insert_setting(
            table_view(old(table)@),
            names_view(path@.skip(from as int)),
            local_key@,
            setting_view(value),
        ),
    decreases path.len() - from,
{
    let ghost t0 = table_view(table@);
    let ghost rest = names_view(path@.skip(from as int));
    let ghost key = local_key@;
    let ghost val = setting_view(value);
    proof {
        lemma_table_view(table@);
    }
    if from == path.len() {
        assert(rest =~= Seq::<Seq<char>>::empty());
        match find_entry(table, local_key.as_str()) {
            Some(i) => {
                let ghost e = (local_key@, setting_view(value));
                let (_, old) = table.remove(i);
                table.insert(i, (local_key, value));
                proof {
                    lemma_table_view(table@);
                    assert(table_view(table@) =~= t0.update(i as int, e));
                    assert((table_view(table@), InsertOutcome::Replaced(setting_view(old))) == insert_setting(t0, rest, key, val));
                }
                Err(SettingError::Replaced(old))
            },
            None => {
                let ghost e = (local_key@, setting_view(value));
                table.push((local_key, value));
                proof {
                    lemma_table_view(table@);
                    assert(table_view(table@) =~= t0.push(e));
                    assert((table_view(table@), InsertOutcome::Inserted) == insert_setting(t0, rest, key, val));
                }
                Ok(())
            },
        }
    } else {
        let name = &path[from];
        proof {
            assert(rest[0] == name@);
            assert(rest.drop_first() =~= names_view(path@.skip(from + 1)));
        }
        match find_entry(table, name.as_str()) {
            None => {
                let mut sub: Vec<(String, SettingValue)> = Vec::new();
                proof {
                    lemma_table_view(sub@);
                    assert(table_view(sub@) =~= Seq::<(Seq<char>, SettingView)>::empty());
                }
                let r = insert_value(&mut sub, path, from + 1, local_key, value);
                let mut n = String::new();
                let cs = chars_of(name.as_str());
                let mut c: usize = 0;
                while c < cs.len()
                    invariant
                        c <= cs.len(),
                        n@ == cs@.take(c as int),
                    decreases cs.len() - c,
                {
                    push_char(&mut n, cs[c]);
                    assert(cs@.take(c + 1) =~= cs@.take(c as int).push(cs@[c as int]));
                    c = c + 1;
                }
                assert(cs@.take(c as int) =~= cs@);
                let ghost e = (n@, setting_view(SettingValue::Table(sub)));
                table.push((n, SettingValue::Table(sub)));
                proof {
                    lemma_table_view(table@);
                    assert(table_view(table@) =~= t0.push(e));
                    assert((table_view(table@), outcome_of(r)) == insert_setting(t0, rest, key, val));
                }
                r
            },
            Some(i) => {
                let (k, v) = table.remove(i);
                proof {
                    assert(k@ == name@);
                }
                match v {
                    SettingValue::Table(mut sub) => {
                        proof {
                            assert(t0[i as int].1 == SettingView::Table(table_view(sub@)));
                        }
                        let r = insert_value(&mut sub, path, from + 1, local_key, value);
                        let ghost e = (k@, setting_view(SettingValue::Table(sub)));
                        table.insert(i, (k, SettingValue::Table(sub)));
                        proof {
                            lemma_table_view(table@);
                            assert(table_view(table@) =~= t0.update(i as int, e));
                            assert((table_view(table@), outcome_of(r)) == insert_setting(t0, rest, key, val));
                        }
                        r
                    },
                    SettingValue::Value(j) => {
                        table.insert(i, (k, SettingValue::Value(j)));
                        proof {
                            lemma_table_view(table@);
                            assert(table_view(table@) =~= t0);
                        }
                        let mut n = String::new();
                        let cs = chars_of(name.as_str());
                        let mut c: usize = 0;
                        while c < cs.len()
                            invariant
                                c <= cs.len(),
                                n@ == cs@.take(c as int),
                            decreases cs.len() - c,
                        {
                            push_char(&mut n, cs[c]);
                            assert(cs@.take(c + 1) =~= cs@.take(c as int).push(cs@[c as int]));
                            c = c + 1;
                        }
                        assert(cs@.take(c as int) =~= cs@);
                        assert((table_view(table@), InsertOutcome::NotATable(n@)) == insert_setting(t0, rest, key, val));
                        Err(SettingError::NotATable(n))
                    },
                }
            },
        }
    }
}


/// The value set at `key` inside the tables named by `path`, if any.
pub open spec fn lookup_setting(t: Seq<(Seq<char>, SettingView)>, path: Seq<Seq<char>>, key: Seq<char>) -> Option<SettingView>
    decreases path.len(),
{
    if path.len() == 0 {
        match find_key(t, key) {
            Some(i) => Some(t[i].1),
            None => None,
        }
    } else {
        match find_key(t, path[0]) {
            Some(i) => match t[i].1 {
                SettingView::Table(inner) => lookup_setting(inner, path.drop_first(), key),
                SettingView::Value(_) => None,
            },
            None => None,
        }
    }
}

proof fn lemma_find_key_push(t: Seq<(Seq<char>, SettingView)>, key: Seq<char>, v: SettingView)
    requires
        find_key(t, key) is None,
    ensures
        find_key(t.push((key, v)), key) == Some(t.len() as int),
{
    assert(t.push((key, v)).drop_last() =~= t);
}

proof fn lemma_find_key_update(t: Seq<(Seq<char>, SettingView)>, key: Seq<char>, i: int, v: SettingView)
    requires
        find_key(t, key) == Some(i),
    ensures
        find_key(t.update(i, (key, v)), key) == Some(i),
{
    lemma_find_key(t, key);
    let u = t.update(i, (key, v));
    lemma_find_key(u, key);
    assert(u[i].0 == key);
    assert forall|j: int| 0 <= j < i implies u[j].0 != key by {
        assert(u[j] == t[j]);
    }
}

/// What is read back at a setting's place is what was set there, unless a
/// name on its path held a value that is not a table.
pub proof fn lemma_lookup_after_insert(t: Seq<(Seq<char>, SettingView)>, path: Seq<Seq<char>>, key: Seq<char>, v: SettingView)
    ensures
        !(insert_setting(t, path, key, v).1 is NotATable) ==> lookup_setting(insert_setting(t, path, key, v).0, path, key) == Some(v),
    decreases path.len(),
{
    lemma_find_key(t, key);
    if path.len() == 0 {
        match find_key(t, key) {
            Some(i) => {
                lemma_find_key_update(t, key, i, v);
                assert(t.update(i, (key, v))[i] == (key, v));
            },
            None => {
                lemma_find_key_push(t, key, v);
                assert(t.push((key, v))[t.len() as int] == (key, v));
            },
        }
    } else {
        let name = path[0];
        lemma_find_key(t, name);
        match find_key(t, name) {
            None => {
                lemma_lookup_after_insert(Seq::empty(), path.drop_first(), key, v);
                let (sub, o) = insert_setting(Seq::empty(), path.drop_first(), key, v);
                lemma_find_key_push(t, name, SettingView::Table(sub));
                let t2 = t.push((name, SettingView::Table(sub)));
                assert(t2[t.len() as int].1 == SettingView::Table(sub));
                assert(insert_setting(t, path, key, v).0 == t2);
            },
            Some(i) => match t[i].1 {
                SettingView::Table(inner) => {
                    lemma_lookup_after_insert(inner, path.drop_first(), key, v);
                    let (sub, o) = insert_setting(inner, path.drop_first(), key, v);
                    lemma_find_key_update(t, name, i, SettingView::Table(sub));
                    let t2 = t.update(i, (name, SettingView::Table(sub)));
                    assert(t2[i].1 == SettingView::Table(sub));
                    assert(insert_setting(t, path, key, v).0 == t2);
                },
                SettingView::Value(_) => {},
            },
        }
    }
}

/// The index of the first `c` in `s`.
pub open spec fn first_index(s: Seq<char>, c: char) -> Option<int>
    decreases s.len(),
{
    if s.len() == 0 {
        None
    } else {
        match first_index(s.drop_last(), c) {
            Some(i) => Some(i),
            None => if s.last() == c { Some(s.len() - 1) } else { None },
        }
    }
}

/// The first `c` of a text: where it is, and that none comes before it.
pub proof fn lemma_first_index(s: Seq<char>, c: char)
    ensures
        match first_index(s, c) {
            Some(i) => 0 <= i < s.len() && s[i] == c && forall|j: int| 0 <= j < i ==> s[j] != c,
            None => forall|j: int| 0 <= j < s.len() ==> s[j] != c,
        },
    decreases s.len(),
{
    if s.len() > 0 {
        let d = s.drop_last();
        lemma_first_index(d, c);
        assert forall|j: int| 0 <= j < d.len() implies d[j] == s[j] by {}
    }
}

/// The pieces of `s` between the `c`s, as `str::split` gives them (one
/// piece, empty, for an empty text).
pub open spec fn split_char(s: Seq<char>, c: char) -> Seq<Seq<char>>
    decreases s.len(),
{
    if s.len() == 0 {
        seq![Seq::empty()]
    } else {
        let p = split_char(s.drop_last(), c);
        if s.last() == c {
            p.push(Seq::empty())
        } else {
            p.update(p.len() - 1, p.last().push(s.last()))
        }
    }
}

proof fn lemma_split_char_len(s: Seq<char>, c: char)
    ensures
        split_char(s, c).len() >= 1,
    decreases s.len(),
{
    if s.len() > 0 {
        lemma_split_char_len(s.drop_last(), c);
    }
}

/// A flattened setting, `a.b.c=value`: the names of the tables it is in
/// (`a`, `b`), its own name (`c`), and the text of its value.
pub open spec fn setting_parts(e: Seq<char>) -> (Seq<Seq<char>>, Seq<char>, Seq<char>) {
    let i = match first_index(e, '=') {
        Some(i) => i,
        None => e.len() as int,
    };
    let parts = split_char(e.take(i), '.');
    (parts.drop_last(), parts.last(), e.skip(i + 1))
}

/// A flattened setting's parts; see `setting_parts`. The setting holds `=`.
pub fn split_setting(entry: &str) -> (res: (Vec<String>, String, String))
    requires
        first_index(entry@, '=') is Some,
    ensures
        (names_view(res.0@), res.1@, res.2@) == setting_parts(entry@),
{
    let cs = chars_of(entry);
    proof {
        lemma_first_index(entry@, '=');
    }
    let mut path: Vec<String> = Vec::new();
    let mut cur = String::new();
    let mut j: usize = 0;
    while cs[j] != '='
        invariant
            cs@ == entry@,
            first_index(entry@, '=') is Some,
            0 <= j <= first_index(entry@, '=')->0,
            first_index(entry@, '=')->0 < cs.len(),
            cs@[first_index(entry@, '=')->0] == '=',
            forall|k: int| 0 <= k < first_index(entry@, '=')->0 ==> cs@[k] != '=',
            names_view(path@).push(cur@) == split_char(entry@.take(j as int), '.'),
        decreases cs.len() - j,
    {
        let c = cs[j];
        proof {
            let t = entry@.take(j + 1);
            assert(t.drop_last() =~= entry@.take(j as int));
            assert(t.last() == c);
            lemma_split_char_len(entry@.take(j as int), '.');
        }
        if c == '.' {
            let ghost before = names_view(path@);
            let done = cur;
            path.push(done);
            cur = String::new();
            proof {
                assert(names_view(path@) =~= before.push(done@));
                assert(names_view(path@).push(cur@) =~= split_char(entry@.take(j + 1), '.'));
            }
        } else {
            let ghost before = names_view(path@);
            push_char(&mut cur, c);
            proof {
                assert(names_view(path@).push(cur@) =~= before.push(cur@));
            }
        }
        j = j + 1;
    }
    let mut value = String::new();
    let mut k: usize = j + 1;
    while k < cs.len()
        invariant
            cs@ == entry@,
            j < k <= cs.len(),
            value@ == entry@.subrange(j + 1, k as int),
        decreases cs.len() - k,
    {
        push_char(&mut value, cs[k]);
        assert(entry@.subrange(j + 1, k + 1) =~= entry@.subrange(j + 1, k as int).push(cs@[k as int]));
        k = k + 1;
    }
    proof {
        let parts = split_char(entry@.take(j as int), '.');
        assert(names_view(path@).push(cur@).drop_last() =~= names_view(path@));
        assert(entry@.subrange(j + 1, k as int) =~= entry@.skip(j + 1));
        assert(parts.last() == cur@);
    }
    (path, cur, value)
}

/// The views of errors with the indices of their entries.
pub open spec fn errors_view(errors: Seq<(usize, SettingError)>) -> Seq<(int, InsertOutcome)> {
    errors.map_values(|e: (usize, SettingError)| (e.0 as int, outcome_of(Err(e.1))))
}

/// The table of the first `n` flattened settings, each set in turn to the
/// value its text after `=` reads as (one whose text does not read as a
/// value left out), and what the settings that were not simply inserted came
/// to, with their indices.
pub open spec fn exploded(entries: Seq<Seq<char>>, n: int) -> (
    Seq<(Seq<char>, SettingView)>,
    Seq<(int, InsertOutcome)>,
)
    decreases n,
{
    if n <= 0 {
        (Seq::empty(), Seq::empty())
    } else {
        let (t, errors) = exploded(entries, n - 1);
        let (path, key, raw) = setting_parts(entries[n - 1]);
        match toml_setting(raw) {
            None => (t, errors),
            Some(v) => {
                let (t2, o) = insert_setting(t, path, key, v);
                (t2, if o is Inserted { errors } else { errors.push((n - 1, o)) })
            },
        }
    }
}

/// What the text of a setting's value reads as: one TOML value, turned
/// into JSON, its tables into tables of settings; nothing where the text is
/// not a TOML value or the value has no JSON form.
pub uninterp spec fn toml_setting(raw: Seq<char>) -> Option<SettingView>;

/// A value as a setting.
pub open spec fn setting_option_view(v: Option<SettingValue>) -> Option<SettingView> {
    match v {
        Some(s) => Some(setting_view(s)),
        None => None,
    }
}

/// Reads the text of a setting's value: the TOML value that
/// `toml::de::ValueDeserializer` reads (a value, not a whole document),
/// turned into a `serde_json::Value` by `toml::Value::try_into`, its objects
/// into tables of settings. Stated only as the named result `toml_setting`.
#[verifier::external_body]
pub fn parse_setting_value(raw: &str) -> (res: Option<SettingValue>)
    ensures
        setting_option_view(res) == toml_setting(raw@),
{
    let toml_value: toml::Value = serde::Deserialize::deserialize(toml::de::ValueDeserializer::new(raw)).ok()?;
    let value: serde_json::Value = toml_value.try_into().ok()?;
    Some(json_setting(value))
}

/// A JSON value as a setting, one for one: an object becomes a table of its
/// members in the order the map gives them, any other value stays as it is.
#[verifier::external_body]
fn json_setting(value: serde_json::Value) -> SettingValue {
    match value {
        serde_json::Value::Object(members) => SettingValue::Table(members.into_iter().map(|(k, v)| (k, json_setting(v))).collect()),
        other => SettingValue::Value(other),
    }
}

/// Flattened settings (`a.b=value`), each set to the value that the text
/// after its `=` reads as, exploded into a table; with the settings that
/// replaced another or could not be set. A setting whose value does not read
/// is left out.
pub fn explode_str_to_str_map(map: &Vec<String>) -> (res: (
    Vec<(String, SettingValue)>,
    Vec<(usize, SettingError)>,
))
    requires
        forall|k: int| 0 <= k < map.len() ==> first_index((#[trigger] map@[k])@, '=') is Some,
    ensures
        (table_view(res.0@), errors_view(res.1@)) == exploded(names_view(map@), map.len() as int),
{
    let ghost entries = names_view(map@);
    let mut table: Vec<(String, SettingValue)> = Vec::new();
    let mut errors: Vec<(usize, SettingError)> = Vec::new();
    proof {
        lemma_table_view(table@);
        assert(table_view(table@) =~= Seq::<(Seq<char>, SettingView)>::empty());
        assert(errors_view(errors@) =~= Seq::<(int, InsertOutcome)>::empty());
    }
    let mut k: usize = 0;
    while k < map.len()
        invariant
            k <= map.len(),
            entries == names_view(map@),
            forall|i: int| 0 <= i < map.len() ==> first_index((#[trigger] map@[i])@, '=') is Some,
            (table_view(table@), errors_view(errors@)) == exploded(entries, k as int),
        decreases map.len() - k,
    {
        let (path, key, raw) = split_setting(map[k].as_str());
        proof {
            assert(entries[k as int] == map@[k as int]@);
            assert(path@.skip(0) =~= path@);
        }
        match parse_setting_value(raw.as_str()) {
            None => {},
            Some(value) => {
                let ghost before = errors_view(errors@);
                let r = insert_value(&mut table, &path, 0, key, value);
                match r {
                    Ok(()) => {},
                    Err(e) => {
                        errors.push((k, e));
                        proof {
                            assert(errors_view(errors@) =~= before.push((k as int, outcome_of(r))));
                        }
                    },
                }
            },
        }
        k = k + 1;
    }
    (table, errors)
}


/// The member of a table named `name`; nothing for a value that is not a
/// table, or a table without it.
pub open spec fn member_of(v: SettingView, name: Seq<char>) -> Option<SettingView> {
    match v {
        SettingView::Table(t) => match find_key(t, name) {
            Some(i) => Some(t[i].1),
            None => None,
        },
        SettingView::Value(_) => None,
    }
}

/// The member of a table named `name`; see `member_of`.
pub fn member<'a>(v: &'a SettingValue, name: &str) -> (res: Option<&'a SettingValue>)
    ensures
        match res {
            Some(r) => member_of(setting_view(*v), name@) == Some(setting_view(*r)),
            None => member_of(setting_view(*v), name@) is None,
        },
{
    match v {
        SettingValue::Table(t) => {
            proof {
                lemma_table_view(t@);
            }
            match find_entry(t, name) {
                Some(i) => Some(&t[i].1),
                None => None,
            }
        },
        SettingValue::Value(_) => None,
    }
}

/// The section of a server's settings that it is sent: where settings and
/// the name of their section are known, that section (and in it the named
/// subsection, when a change of configuration is sent and the server is
/// configured with one).
pub open spec fn section_of(
    settings: Option<SettingView>,
    section: Option<Seq<char>>,
    subsection: Option<Seq<char>>,
    for_did_change_configuration: bool,
) -> Option<SettingView> {
    match (settings, section) {
        (Some(s), Some(name)) => match member_of(s, name) {
            Some(m) => if for_did_change_configuration && subsection is Some {
                member_of(m, subsection->0)
            } else {
                Some(m)
            },
            None => None,
        },
        _ => None,
    }
}

/// The view of an optional value.
pub open spec fn option_view(v: Option<&SettingValue>) -> Option<SettingView> {
    match v {
        Some(s) => Some(setting_view(*s)),
        None => None,
    }
}

/// The section of a server's settings that it is sent; see `section_of`.
pub fn configured_section<'a>(
    settings: Option<&'a SettingValue>,
    settings_section: Option<&str>,
    did_change_configuration_subsection: Option<&str>,
    for_did_change_configuration: bool,
) -> (res: Option<&'a SettingValue>)
    ensures
        option_view(res) == section_of(
            option_view(settings),
            match settings_section { Some(s) => Some(s@), None => None },
            match did_change_configuration_subsection { Some(s) => Some(s@), None => None },
            for_did_change_configuration,
        ),
{
    match (settings, settings_section) {
        (Some(s), Some(name)) => match member(s, name) {
            Some(m) => {
                if for_did_change_configuration {
                    match did_change_configuration_subsection {
                        Some(sub) => member(m, sub),
                        None => Some(m),
                    }
                } else {
                    Some(m)
                }
            },
            None => None,
        },
        _ => None,
    }
}

/// The answer to one item of a server's request for its configuration:
/// nothing (null) without a section or settings; with the workaround for
/// ESLint, the whole settings for an empty section; else the member named by
/// the section, or nothing.
pub open spec fn configuration_answer(settings: Option<SettingView>, workaround_eslint: bool, section: Option<Seq<char>>) -> Option<SettingView> {
    match (section, settings) {
        (Some(name), Some(s)) => if workaround_eslint && name.len() == 0 {
            Some(s)
        } else {
            member_of(s, name)
        },
        _ => None,
    }
}

/// The answers to the items of a server's request for its configuration, in
/// their order; see `configuration_answer`.
pub fn configuration<'a>(settings: Option<&'a SettingValue>, workaround_eslint: bool, sections: &Vec<Option<String>>) -> (res: Vec<Option<&'a SettingValue>>)
    ensures
        res.len() == sections.len(),
        forall|k: int|
            0 <= k < sections.len() ==> option_view(#[trigger] res@[k]) == configuration_answer(
                option_view(settings),
                workaround_eslint,
                match sections@[k] { Some(s) => Some(s@), None => None },
            ),
{
    let mut out: Vec<Option<&'a SettingValue>> = Vec::new();
    let mut k: usize = 0;
    while k < sections.len()
        invariant
            k <= sections.len(),
            out.len() == k,
            forall|j: int|
                0 <= j < k ==> option_view(#[trigger] out@[j]) == configuration_answer(
                    option_view(settings),
                    workaround_eslint,
                    match sections@[j] { Some(s) => Some(s@), None => None },
                ),
        decreases sections.len() - k,
    {
        let answer = match (&sections[k], settings) {
            (Some(name), Some(s)) => {
                proof {
                    reveal_strlit("");
                    assert(""@ =~= Seq::<char>::empty());
                    assert(name@.len() == 0 ==> name@ =~= ""@);
                }
                if workaround_eslint && str_eq(name.as_str(), "") {
                    Some(s)
                } else {
                    member(s, name.as_str())
                }
            },
            _ => None,
        };
        assert(option_view(answer) == configuration_answer(
            option_view(settings),
            workaround_eslint,
            match sections@[k as int] { Some(s) => Some(s@), None => None },
        ));
        out.push(answer);
        k = k + 1;
    }
    out
}


/// Exploding settings one after another: the last setting whose value
/// reads is found at its place in the table, unless it is reported as set
/// inside a value that is not a table.
pub proof fn lemma_exploded_last_reads_back(entries: Seq<Seq<char>>, n: int, v: SettingView)
    requires
        0 < n <= entries.len(),
        toml_setting(setting_parts(entries[n - 1]).2) == Some(v),
        !(exploded(entries, n).1.len() > 0 && exploded(entries, n).1.last().0 == n - 1
            && exploded(entries, n).1.last().1 is NotATable),
    ensures
        lookup_setting(exploded(entries, n).0, setting_parts(entries[n - 1]).0, setting_parts(entries[n - 1]).1) == Some(v),
{
    let (t, errors) = exploded(entries, n - 1);
    let (path, key, raw) = setting_parts(entries[n - 1]);
    lemma_lookup_after_insert(t, path, key, v);
}

} // verus!
