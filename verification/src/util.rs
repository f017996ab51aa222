//! Quoting and escaping of text for Kakoune commands, and short file paths.

use vstd::prelude::*;
use crate::strings::{chars_of, push_char, push_str};

verus! {

/// `s` with every occurrence of `c` replaced by `r`.
pub open spec fn replace_char(s: Seq<char>, c: char, r: Seq<char>) -> Seq<char>
    decreases s.len(),
{
    if s.len() == 0 {
        Seq::empty()
    } else {
        replace_char(s.drop_last(), c, r) + (if s.last() == c { r } else { seq![s.last()] })
    }
}

/// Text wrapped in single quotes for Kakoune: quotes doubled.
pub open spec fn editor_escape_spec(s: Seq<char>) -> Seq<char> {
    replace_char(s, '\'', seq!['\'', '\''])
}

/// Text wrapped in double quotes for Kakoune: double quotes and percent signs doubled.
pub open spec fn editor_escape_double_quotes_spec(s: Seq<char>) -> Seq<char> {
    replace_char(replace_char(s, '"', seq!['"', '"']), '%', seq!['%', '%'])
}

/// Printable keys for `execute-keys`: `<` written as `<lt>`.
pub open spec fn escape_keys_spec(s: Seq<char>) -> Seq<char> {
    replace_char(s, '<', seq!['<', 'l', 't', '>'])
}

/// An element of a Kakoune tuple option: backslashes and bars escaped by a backslash.
pub open spec fn escape_tuple_element_spec(s: Seq<char>) -> Seq<char> {
    replace_char(replace_char(s, '\\', seq!['\\', '\\']), '|', seq!['\\', '|'])
}

/// Whether `c` is alphanumeric in Unicode's sense, as `char::is_alphanumeric` says.
pub uninterp spec fn unicode_alphanumeric(c: char) -> bool;

/// Whether an ASCII char is a letter or a digit.
pub open spec fn ascii_alphanumeric(c: char) -> bool {
    ('a' <= c <= 'z') || ('A' <= c <= 'Z') || ('0' <= c <= '9')
}

/// `char::is_alphanumeric`: alphabetic or numeric in Unicode's sense; of an
/// ASCII char, whether it is a letter or a digit (the other ASCII chars are
/// punctuation, blanks and controls, neither alphabetic nor numeric).
#[verifier::external_body]
pub fn is_alphanumeric(c: char) -> (res: bool)
    ensures
        res == unicode_alphanumeric(c),
        (c as u32) < 128 ==> res == ascii_alphanumeric(c),
{
    c.is_alphanumeric()
}

/// Whether Kakoune reads `s` as one word without quotes.
pub open spec fn is_bare_word(s: Seq<char>) -> bool {
    s.len() > 0 && forall|i: int| 0 <= i < s.len() ==> (unicode_alphanumeric(#[trigger] s[i]) || s[i] == '-' || s[i] == '_')
}

/// `s` as a Kakoune word: as it is where it needs no quotes, else in single quotes.
pub open spec fn editor_quote_spec(s: Seq<char>) -> Seq<char> {
    if is_bare_word(s) {
        s
    } else {
        seq!['\''] + editor_escape_spec(s) + seq!['\'']
    }
}

/// `s` in double quotes for Kakoune.
pub open spec fn editor_quote_double_quotes_spec(s: Seq<char>) -> Seq<char> {
    seq!['"'] + editor_escape_double_quotes_spec(s) + seq!['"']
}

proof fn lemma_replace_char_step(s: Seq<char>, i: int, c: char, r: Seq<char>)
    requires
        0 <= i < s.len(),
    ensures
        replace_char(s.take(i + 1), c, r) == replace_char(s.take(i), c, r) + (if s[i] == c { r } else { seq![s[i]] }),
{
    assert(s.take(i + 1).drop_last() =~= s.take(i));
}

/// Appends `s` to `out`, with every `c` replaced by `r`.
pub fn push_replaced(out: &mut String, s: &str, c: char, r: &str)
    ensures
        final(out)@ == old(out)@ + replace_char(s@, c, r@),
{
    let chars = chars_of(s);
    let ghost start = out@;
    let mut i: usize = 0;
    while i < chars.len()
        invariant
            i <= chars.len(),
            chars@ == s@,
            out@ == start + replace_char(s@.take(i as int), c, r@),
        decreases chars.len() - i,
    {
        proof { lemma_replace_char_step(s@, i as int, c, r@); }
        let x = chars[i];
        if x == c {
            push_str(out, r);
        } else {
            push_char(out, x);
        }
        i += 1;
        assert(out@ =~= start + replace_char(s@.take(i as int), c, r@));
    }
    assert(s@.take(i as int) =~= s@);
}

/// `s` with every `c` replaced by `r`.
pub fn replaced(s: &str, c: char, r: &str) -> (res: String)
    ensures
        res@ == replace_char(s@, c, r@),
{
    let mut out = String::new();
    push_replaced(&mut out, s, c, r);
    assert(out@ =~= replace_char(s@, c, r@));
    out
}

/// Escapes text that Kakoune reads inside single quotes.
pub fn editor_escape(s: &str) -> (res: String)
    ensures
        res@ == editor_escape_spec(s@),
{
    proof {
        reveal_strlit("''");
        assert("''"@ =~= seq!['\'', '\'']);
    }
    replaced(s, '\'', "''")
}

/// Escapes text that Kakoune reads inside double quotes.
pub fn editor_escape_double_quotes(s: &str) -> (res: String)
    ensures
        res@ == editor_escape_double_quotes_spec(s@),
{
    proof {
        reveal_strlit("\"\"");
        reveal_strlit("%%");
        assert("\"\""@ =~= seq!['"', '"']);
        assert("%%"@ =~= seq!['%', '%']);
    }
    let a = replaced(s, '"', "\"\"");
    replaced(a.as_str(), '%', "%%")
}

/// Escapes printable keys for `execute-keys`.
pub fn editor_escape_keys(s: &str) -> (res: String)
    ensures
        res@ == escape_keys_spec(s@),
{
    escape_keys(s)
}

/// Quotes text as a Kakoune word: as it is when it is a non-empty run of
/// alphanumerics, dashes and underscores, else in single quotes, escaped.
pub fn editor_quote(s: &str) -> (res: String)
    ensures
        res@ == editor_quote_spec(s@),
        kak_unquote(res@) == s@,
        is_bare_word(s@) ==> forall|i: int| 0 <= i < res@.len() ==> !((res@[i] as u32) < 128 && !ascii_alphanumeric(#[trigger] res@[i]) && res@[i] != '-' && res@[i] != '_'),
{
    let chars = chars_of(s);
    let mut bare = chars.len() > 0;
    let mut i: usize = 0;
    while i < chars.len()
        invariant
            i <= chars.len(),
            chars@ == s@,
            bare == (s@.len() > 0 && forall|j: int| 0 <= j < i ==> (unicode_alphanumeric(#[trigger] s@[j]) || s@[j] == '-' || s@[j] == '_')),
            bare ==> forall|j: int| 0 <= j < i ==> !(((#[trigger] s@[j]) as u32) < 128 && !ascii_alphanumeric(s@[j]) && s@[j] != '-' && s@[j] != '_'),
        decreases chars.len() - i,
    {
        let c = chars[i];
        if !(is_alphanumeric(c) || c == '-' || c == '_') {
            bare = false;
        }
        i += 1;
    }
    proof {
        lemma_editor_quote_reads_back(s@);
    }
    if bare {
        let mut out = String::new();
        push_str(&mut out, s);
        assert(out@ =~= s@);
        assert(s@[0] != '\'');
        return out;
    }
    let mut out = String::new();
    push_char(&mut out, '\'');
    let e = editor_escape(s);
    push_str(&mut out, e.as_str());
    push_char(&mut out, '\'');
    assert(out@ =~= editor_quote_spec(s@));
    out
}

/// Quotes text in double quotes for Kakoune, escaped.
pub fn editor_quote_double_quotes(s: &str) -> (res: String)
    ensures
        res@ == editor_quote_double_quotes_spec(s@),
{
    let mut out = String::new();
    push_char(&mut out, '"');
    let e = editor_escape_double_quotes(s);
    push_str(&mut out, e.as_str());
    push_char(&mut out, '"');
    assert(out@ =~= editor_quote_double_quotes_spec(s@));
    out
}

/// Escapes a sequence of printable keys so that `execute-keys` types them as they are.
pub fn escape_keys(s: &str) -> (res: String)
    ensures
        res@ == escape_keys_spec(s@),
{
    proof {
        reveal_strlit("<lt>");
        assert("<lt>"@ =~= seq!['<', 'l', 't', '>']);
    }
    replaced(s, '<', "<lt>")
}

/// Escapes an element of a Kakoune tuple option (as in "completions",
/// "line-specs" and "range-specs").
pub fn escape_tuple_element(s: &str) -> (res: String)
    ensures
        res@ == escape_tuple_element_spec(s@),
{
    proof {
        reveal_strlit("\\\\");
        reveal_strlit("\\|");
        assert("\\\\"@ =~= seq!['\\', '\\']);
        assert("\\|"@ =~= seq!['\\', '|']);
    }
    let a = replaced(s, '\\', "\\\\");
    replaced(a.as_str(), '|', "\\|")
}

/// What `Path::strip_prefix` leaves of path `target` once directory `base`
/// is taken off its front, if `base` is a prefix of it.
pub uninterp spec fn path_strip_prefix(target: Seq<char>, base: Seq<char>) -> Option<Seq<char>>;

/// `Path::strip_prefix`, on paths given as text.
#[verifier::external_body]
pub fn strip_path_prefix<'a>(target: &'a str, base: &str) -> (res: Option<&'a str>)
    ensures
        res matches Some(r) ==> path_strip_prefix(target@, base@) == Some(r@),
        res is None ==> path_strip_prefix(target@, base@) is None,
{
    std::path::Path::new(target).strip_prefix(base).ok().and_then(|p| p.to_str())
}

/// The path `target` relative to `current_dir` when it lies inside it, else `target` itself.
pub fn short_file_path<'a>(target: &'a str, current_dir: &str) -> (res: &'a str)
    ensures
        res@ == match path_strip_prefix(target@, current_dir@) {
            Some(r) => r,
            None => target@,
        },
{
    match strip_path_prefix(target, current_dir) {
        Some(r) => r,
        None => target,
    }
}


// ---------------------------------------------------------------------------
// Laws

/// How Kakoune reads text in which a quote char `q` is written twice: each
/// doubled `q` stands for one.
pub open spec fn undouble(s: Seq<char>, q: char) -> Seq<char>
    decreases s.len(),
{
    if s.len() == 0 {
        Seq::empty()
    } else if s.len() >= 2 && s[0] == q && s[1] == q {
        seq![q] + undouble(s.skip(2), q)
    } else {
        seq![s[0]] + undouble(s.skip(1), q)
    }
}

proof fn lemma_replace_char_concat(a: Seq<char>, b: Seq<char>, c: char, r: Seq<char>)
    ensures
        replace_char(a + b, c, r) == replace_char(a, c, r) + replace_char(b, c, r),
    decreases b.len(),
{
    if b.len() == 0 {
        assert(a + b =~= a);
        assert(replace_char(b, c, r) =~= Seq::<char>::empty());
        assert(replace_char(a, c, r) + replace_char(b, c, r) =~= replace_char(a, c, r));
    } else {
        assert((a + b).drop_last() =~= a + b.drop_last());
        assert((a + b).last() == b.last());
        lemma_replace_char_concat(a, b.drop_last(), c, r);
        assert(replace_char(a + b, c, r) =~= replace_char(a, c, r) + replace_char(b, c, r));
    }
}

/// Reading a text escaped by doubling `q` gives back the text.
pub proof fn lemma_undouble_replace(s: Seq<char>, q: char)
    ensures
        undouble(replace_char(s, q, seq![q, q]), q) == s,
    decreases s.len(),
{
    if s.len() > 0 {
        let rest = s.skip(1);
        assert(s =~= seq![s[0]] + rest);
        lemma_replace_char_concat(seq![s[0]], rest, q, seq![q, q]);
        assert(seq![s[0]].drop_last() =~= Seq::<char>::empty());
        assert(replace_char(Seq::<char>::empty(), q, seq![q, q]) =~= Seq::<char>::empty());
        assert(replace_char(seq![s[0]], q, seq![q, q]) =~= (if s[0] == q { seq![q, q] } else { seq![s[0]] }));
        lemma_undouble_replace(rest, q);
        let t = replace_char(s, q, seq![q, q]);
        if s[0] == q {
            assert(t.skip(2) =~= replace_char(rest, q, seq![q, q]));
        } else {
            assert(t.skip(1) =~= replace_char(rest, q, seq![q, q]));
        }
        assert(seq![s[0]] + rest =~= s);
    }
}

/// Kakoune reads a word quoted by `editor_quote` as the original text: either
/// the text is a bare word and stays as it is, or it is put in single quotes
/// with its quotes doubled.
pub proof fn lemma_editor_quote_reads_back(s: Seq<char>)
    ensures
        is_bare_word(s) ==> editor_quote_spec(s) == s,
        !is_bare_word(s) ==> {
            let w = editor_quote_spec(s);
            &&& w.len() >= 2
            &&& w[0] == '\''
            &&& w.last() == '\''
            &&& undouble(w.subrange(1, w.len() - 1), '\'') == s
        },
{
    if !is_bare_word(s) {
        let e = editor_escape_spec(s);
        let w = editor_quote_spec(s);
        assert(w.subrange(1, w.len() - 1) =~= e);
        lemma_undouble_replace(s, '\'');
    }
}

/// How Kakoune reads a word: a word in single quotes as its text between
/// them, with each doubled quote standing for one; any other word as it is.
pub open spec fn kak_unquote(w: Seq<char>) -> Seq<char> {
    if w.len() > 0 && w[0] == '\'' {
        undouble(w.subrange(1, w.len() - 1), '\'')
    } else {
        w
    }
}

/// The number of occurrences of `c` in `s`.
pub open spec fn count_char(s: Seq<char>, c: char) -> nat
    decreases s.len(),
{
    if s.len() == 0 {
        0
    } else {
        count_char(s.drop_last(), c) + (if s.last() == c { 1nat } else { 0nat })
    }
}

/// Whether every maximal run of `q` in `s` has an even length.
pub open spec fn even_runs(s: Seq<char>, q: char) -> bool
    decreases s.len(),
{
    if s.len() == 0 {
        true
    } else if s[0] != q {
        even_runs(s.skip(1), q)
    } else {
        s.len() >= 2 && s[1] == q && even_runs(s.skip(2), q)
    }
}

proof fn lemma_count_char_concat(a: Seq<char>, b: Seq<char>, c: char)
    ensures
        count_char(a + b, c) == count_char(a, c) + count_char(b, c),
    decreases b.len(),
{
    if b.len() == 0 {
        assert(a + b =~= a);
    } else {
        assert((a + b).drop_last() =~= a + b.drop_last());
        lemma_count_char_concat(a, b.drop_last(), c);
    }
}

/// A first char split off the text that a replacement goes through.
proof fn lemma_replace_char_first(s: Seq<char>, c: char, r: Seq<char>)
    requires
        s.len() > 0,
    ensures
        replace_char(s, c, r) == (if s[0] == c { r } else { seq![s[0]] }) + replace_char(s.skip(1), c, r),
{
    assert(s =~= seq![s[0]] + s.skip(1));
    lemma_replace_char_concat(seq![s[0]], s.skip(1), c, r);
    let one = seq![s[0]];
    assert(one.drop_last() =~= Seq::<char>::empty());
    assert(one.last() == s[0]);
    assert(replace_char(Seq::<char>::empty(), c, r) =~= Seq::<char>::empty());
    assert(replace_char(one, c, r) == replace_char(one.drop_last(), c, r) + (if s[0] == c { r } else { seq![s[0]] }));
    assert(replace_char(one, c, r) =~= (if s[0] == c { r } else { seq![s[0]] }));
}

/// Text escaped for single quotes has its quotes doubled: reading it back
/// gives the text, every run of quotes in it is of even length, and it holds
/// twice as many quotes.
pub proof fn lemma_editor_escape(s: Seq<char>)
    ensures
        undouble(editor_escape_spec(s), '\'') == s,
        even_runs(editor_escape_spec(s), '\''),
        count_char(editor_escape_spec(s), '\'') == 2 * count_char(s, '\''),
    decreases s.len(),
{
    lemma_undouble_replace(s, '\'');
    if s.len() > 0 {
        let w = editor_escape_spec(s);
        let rest = s.skip(1);
        lemma_replace_char_first(s, '\'', seq!['\'', '\'']);
        lemma_editor_escape(rest);
        let head = if s[0] == '\'' { seq!['\'', '\''] } else { seq![s[0]] };
        lemma_count_char_concat(head, editor_escape_spec(rest), '\'');
        assert(s =~= seq![s[0]] + rest);
        lemma_count_char_concat(seq![s[0]], rest, '\'');
        let one = seq![s[0]];
        assert(one.drop_last() =~= Seq::<char>::empty());
        assert(one.last() == s[0]);
        assert(count_char(Seq::<char>::empty(), '\'') == 0);
        assert(count_char(one, '\'') == count_char(one.drop_last(), '\'') + (if s[0] == '\'' { 1nat } else { 0nat }));
        let two = seq!['\'', '\''];
        assert(two.drop_last() =~= seq!['\'']);
        assert(seq!['\''].drop_last() =~= Seq::<char>::empty());
        assert(count_char(seq!['\''], '\'') == 1);
        assert(count_char(two, '\'') == 2);
        if s[0] == '\'' {
            assert(w.skip(2) =~= editor_escape_spec(rest));
        } else {
            assert(w.skip(1) =~= editor_escape_spec(rest));
        }
    } else {
        assert(editor_escape_spec(s) =~= Seq::<char>::empty());
    }
}

/// How `execute-keys` reads a key sequence in which `<` is written `<lt>`.
pub open spec fn unescape_keys(w: Seq<char>) -> Seq<char>
    decreases w.len(),
{
    if w.len() == 0 {
        Seq::empty()
    } else if w.len() >= 4 && w.take(4) == seq!['<', 'l', 't', '>'] {
        seq!['<'] + unescape_keys(w.skip(4))
    } else {
        seq![w[0]] + unescape_keys(w.skip(1))
    }
}

/// Keys escaped by `escape_keys` read back as the text.
pub proof fn lemma_escape_keys_reads_back(s: Seq<char>)
    ensures
        unescape_keys(escape_keys_spec(s)) == s,
    decreases s.len(),
{
    let lt = seq!['<', 'l', 't', '>'];
    let w = escape_keys_spec(s);
    if s.len() == 0 {
        assert(w =~= Seq::<char>::empty());
    } else {
        let rest = s.skip(1);
        lemma_replace_char_first(s, '<', lt);
        lemma_escape_keys_reads_back(rest);
        let wr = escape_keys_spec(rest);
        assert(s =~= seq![s[0]] + rest);
        if s[0] == '<' {
            assert(w =~= lt + wr);
            assert(w.take(4) =~= lt);
            assert(w.skip(4) =~= wr);
        } else {
            assert(w =~= seq![s[0]] + wr);
            assert(w.skip(1) =~= wr);
            if w.len() >= 4 {
                assert(w.take(4)[0] == s[0]);
            }
        }
    }
}

/// Every `<` in keys escaped by `escape_keys` starts a `<lt>`.
pub proof fn lemma_escape_keys_lt(s: Seq<char>, i: int)
    requires
        0 <= i < escape_keys_spec(s).len(),
        escape_keys_spec(s)[i] == '<',
    ensures
        i + 4 <= escape_keys_spec(s).len(),
        escape_keys_spec(s).subrange(i, i + 4) == seq!['<', 'l', 't', '>'],
    decreases s.len(),
{
    let lt = seq!['<', 'l', 't', '>'];
    let w = escape_keys_spec(s);
    if s.len() == 0 {
        assert(w =~= Seq::<char>::empty());
    } else {
        let rest = s.skip(1);
        lemma_replace_char_first(s, '<', lt);
        let wr = escape_keys_spec(rest);
        if s[0] == '<' {
            assert(w =~= lt + wr);
            if i >= 4 {
                assert(wr[i - 4] == '<');
                lemma_escape_keys_lt(rest, i - 4);
                assert(w.subrange(i, i + 4) =~= wr.subrange(i - 4, i));
            } else {
                assert(w[1] == 'l' && w[2] == 't' && w[3] == '>');
                assert(i == 0);
                assert(w.subrange(0, 4) =~= lt);
            }
        } else {
            assert(w =~= seq![s[0]] + wr);
            assert(i >= 1);
            assert(wr[i - 1] == '<');
            lemma_escape_keys_lt(rest, i - 1);
            assert(w.subrange(i, i + 4) =~= wr.subrange(i - 1, i + 3));
        }
    }
}

// ---------------------------------------------------------------------------
// Filetypes

/// The language id for a filetype: the one configured for it, else the
/// filetype itself.
pub open spec fn language_id_for(ids: Seq<(String, String)>, filetype: Seq<char>) -> Seq<char>
    decreases ids.len(),
{
    if ids.len() == 0 {
        filetype
    } else if ids[0].0@ == filetype {
        ids[0].1@
    } else {
        language_id_for(ids.drop_first(), filetype)
    }
}

/// The name under which a server is listed: in a legacy configuration with
/// languages, its name after the first `:`; else its name.
pub open spec fn listed_name(name: Seq<char>, legacy_languages: bool) -> Seq<char> {
    if legacy_languages {
        match crate::settings::first_index(name, ':') {
            Some(i) => name.skip(i + 1),
            None => name,
        }
    } else {
        name
    }
}

/// Each server with each of its filetypes, in order.
pub open spec fn server_filetypes(servers: Seq<(String, Vec<String>)>) -> Seq<(Seq<char>, Seq<char>)>
    decreases servers.len(),
{
    if servers.len() == 0 {
        Seq::empty()
    } else {
        server_filetypes(servers.drop_last()) + servers.last().1@.map_values(|f: String| (servers.last().0@, f@))
    }
}

/// A filetype's entry: its language id and its servers.
pub open spec fn entry_index(m: Seq<(Seq<char>, Seq<char>, Seq<Seq<char>>)>, filetype: Seq<char>) -> Option<int>
    decreases m.len(),
{
    if m.len() == 0 {
        None
    } else {
        match entry_index(m.drop_last(), filetype) {
            Some(i) => Some(i),
            None => if m.last().0 == filetype { Some(m.len() - 1) } else { None },
        }
    }
}

/// The map from filetype to language id and servers after the first `n`
/// pairs of server and filetype: a filetype's entry is made with its
/// language id when first seen, and each server is added to it.
pub open spec fn filetype_map(pairs: Seq<(Seq<char>, Seq<char>)>, ids: Seq<(String, String)>, legacy_languages: bool, n: int) -> Seq<(Seq<char>, Seq<char>, Seq<Seq<char>>)>
    decreases n,
{
    if n <= 0 {
        Seq::empty()
    } else {
        let m = filetype_map(pairs, ids, legacy_languages, n - 1);
        let (server, ft) = pairs[n - 1];
        let name = listed_name(server, legacy_languages);
        match entry_index(m, ft) {
            Some(i) => m.update(i, (m[i].0, m[i].1, m[i].2.push(name))),
            None => m.push((ft, language_id_for(ids, ft), seq![name])),
        }
    }
}

/// The entries as values.
pub open spec fn entries_view(v: Seq<(String, String, Vec<String>)>) -> Seq<(Seq<char>, Seq<char>, Seq<Seq<char>>)> {
    v.map_values(|e: (String, String, Vec<String>)| (e.0@, e.1@, e.2@.map_values(|s: String| s@)))
}

fn copy_text(s: &str) -> (res: String)
    ensures
        res@ == s@,
{
    let mut out = String::new();
    push_str(&mut out, s);
    out
}

fn language_id_lookup(ids: &Vec<(String, String)>, filetype: &str) -> (res: String)
    ensures
        res@ == language_id_for(ids@, filetype@),
{
    let mut k: usize = 0;
    assert(ids@.skip(0) =~= ids@);
    while k < ids.len()
        invariant
            k <= ids.len(),
            language_id_for(ids@, filetype@) == language_id_for(ids@.skip(k as int), filetype@),
        decreases ids.len() - k,
    {
        proof {
            assert(ids@.skip(k as int).drop_first() =~= ids@.skip(k + 1));
        }
        if crate::strings::str_eq(ids[k].0.as_str(), filetype) {
            return copy_text(ids[k].1.as_str());
        }
        k = k + 1;
    }
    proof {
        assert(ids@.skip(k as int) =~= Seq::<(String, String)>::empty());
    }
    copy_text(filetype)
}

fn listed(name: &str, legacy_languages: bool) -> (res: String)
    requires
        legacy_languages ==> crate::settings::first_index(name@, ':') is Some,
    ensures
        res@ == listed_name(name@, legacy_languages),
{
    if !legacy_languages {
        return copy_text(name);
    }
    let cs = chars_of(name);
    proof {
        crate::settings::lemma_first_index(name@, ':');
    }
    let ghost i0 = crate::settings::first_index(name@, ':')->0;
    let mut k: usize = 0;
    while cs[k] != ':'
        invariant
            cs@ == name@,
            0 <= k <= i0,
            i0 < cs.len(),
            cs@[i0] == ':',
        decreases i0 - k,
    {
        k = k + 1;
    }
    proof {
        assert(k == i0) by {
            if k < i0 {
                assert(name@[k as int] != ':');
            }
        }
    }
    let mut out = String::new();
    let mut j: usize = k + 1;
    while j < cs.len()
        invariant
            cs@ == name@,
            k < j <= cs.len(),
            out@ == name@.subrange(k + 1, j as int),
        decreases cs.len() - j,
    {
        push_char(&mut out, cs[j]);
        assert(name@.subrange(k + 1, j + 1) =~= name@.subrange(k + 1, j as int).push(cs@[j as int]));
        j = j + 1;
    }
    assert(name@.subrange(k + 1, j as int) =~= name@.skip(k + 1));
    out
}

proof fn lemma_entry_index(m: Seq<(Seq<char>, Seq<char>, Seq<Seq<char>>)>, ft: Seq<char>)
    ensures
        match entry_index(m, ft) {
            Some(i) => 0 <= i < m.len() && m[i].0 == ft && forall|j: int| 0 <= j < i ==> m[j].0 != ft,
            None => forall|j: int| 0 <= j < m.len() ==> m[j].0 != ft,
        },
    decreases m.len(),
{
    if m.len() > 0 {
        let d = m.drop_last();
        lemma_entry_index(d, ft);
        assert forall|j: int| 0 <= j < d.len() implies d[j] == m[j] by {}
    }
}

/// Every server name holds a `:` where languages are configured the legacy
/// way.
pub open spec fn names_qualified(servers: Seq<(String, Vec<String>)>, legacy_languages: bool) -> bool {
    legacy_languages ==> forall|k: int| 0 <= k < servers.len() ==> crate::settings::first_index((#[trigger] servers[k]).0@, ':') is Some
}

/// Filetypes with their language ids and the servers for them, each
/// filetype once, in the order first seen; see `filetype_map`.
pub fn filetype_to_language_id_map(
    servers: &Vec<(String, Vec<String>)>,
    language_ids: &Vec<(String, String)>,
    legacy_languages: bool,
) -> (res: Vec<(String, String, Vec<String>)>)
    requires
        names_qualified(servers@, legacy_languages),
    ensures
        entries_view(res@) == filetype_map(server_filetypes(servers@), language_ids@, legacy_languages, server_filetypes(servers@).len() as int),
{
    let ghost all = server_filetypes(servers@);
    let mut out: Vec<(String, String, Vec<String>)> = Vec::new();
    let ghost mut n: int = 0;
    let mut i: usize = 0;
    while i < servers.len()
        invariant
            i <= servers.len(),
            names_qualified(servers@, legacy_languages),
            n == server_filetypes(servers@.take(i as int)).len(),
            server_filetypes(servers@.take(i as int)) == all.take(n),
            all == server_filetypes(servers@),
            n <= all.len(),
            entries_view(out@) == filetype_map(all, language_ids@, legacy_languages, n),
        decreases servers.len() - i,
    {
        let (name, fts) = (&servers[i].0, &servers[i].1);
        let ghost head = server_filetypes(servers@.take(i + 1));
        proof {
            assert(servers@.take(i + 1).drop_last() =~= servers@.take(i as int));
            assert(servers@.take(i + 1).last() == servers@[i as int]);
            lemma_server_filetypes_prefix(servers@, i + 1);
        }
        let lname = listed(name.as_str(), legacy_languages);
        let mut j: usize = 0;
        while j < fts.len()
            invariant
                j <= fts.len(),
                all == server_filetypes(servers@),
                head == server_filetypes(servers@.take(i + 1)),
                head == server_filetypes(servers@.take(i as int)) + fts@.map_values(|f: String| (name@, f@)),
                head == all.take(head.len() as int),
                head.len() <= all.len(),
                n == server_filetypes(servers@.take(i as int)).len() + j,
                lname@ == listed_name(name@, legacy_languages),
                entries_view(out@) == filetype_map(all, language_ids@, legacy_languages, n),
            decreases fts.len() - j,
        {
            let ft = fts[j].as_str();
            let ghost m = entries_view(out@);
            proof {
                assert(all[n] == head[n]);
                assert(head[n] == (name@, ft@));
                lemma_entry_index(m, ft@);
            }
            let mut found: Option<usize> = None;
            let mut k: usize = 0;
            while k < out.len() && found.is_none()
                invariant
                    k <= out.len(),
                    m == entries_view(out@),
                    found is None ==> forall|x: int| 0 <= x < k ==> m[x].0 != ft@,
                    found matches Some(x) ==> x < out.len() && m[x as int].0 == ft@ && forall|y: int| 0 <= y < x ==> m[y].0 != ft@,
                decreases out.len() - k + (if found is None { 1int } else { 0int }),
            {
                proof {
                    assert(m[k as int].0 == out@[k as int].0@);
                }
                if crate::strings::str_eq(out[k].0.as_str(), ft) {
                    found = Some(k);
                } else {
                    k = k + 1;
                }
            }
            match found {
                Some(x) => {
                    proof {
                        assert(m[x as int].0 == ft@);
                        assert(entry_index(m, ft@) == Some(x as int)) by {
                            let e = entry_index(m, ft@);
                            if e is Some && e->0 != x {
                                assert(e->0 > x ==> m[x as int].0 != ft@);
                            }
                        }
                    }
                    let (a, b, mut v) = out.remove(x);
                    let ghost v0 = v@;
                    v.push(copy_text(lname.as_str()));
                    proof {
                        assert(v@.map_values(|t: String| t@) =~= v0.map_values(|t: String| t@).push(lname@));
                    }
                    out.insert(x, (a, b, v));
                    proof {
                        assert(entries_view(out@) =~= m.update(x as int, (m[x as int].0, m[x as int].1, m[x as int].2.push(lname@))));
                    }
                },
                None => {
                    let lang = language_id_lookup(language_ids, ft);
                    let mut v: Vec<String> = Vec::new();
                    v.push(copy_text(lname.as_str()));
                    proof {
                        assert(v@.map_values(|t: String| t@) =~= seq![lname@]);
                    }
                    out.push((copy_text(ft), lang, v));
                    proof {
                        assert(entry_index(m, ft@) is None);
                        assert(entries_view(out@) =~= m.push((ft@, language_id_for(language_ids@, ft@), seq![lname@])));
                    }
                },
            }
            proof {
                n = n + 1;
            }
            j = j + 1;
        }
        proof {
            assert(fts@.map_values(|f: String| (name@, f@)).len() == fts.len());
        }
        i = i + 1;
    }
    proof {
        assert(servers@.take(i as int) =~= servers@);
    }
    out
}

/// The pairs of a prefix of the servers are a prefix of all the pairs.
proof fn lemma_server_filetypes_prefix(servers: Seq<(String, Vec<String>)>, i: int)
    requires
        0 <= i <= servers.len(),
    ensures
        server_filetypes(servers.take(i)) == server_filetypes(servers).take(server_filetypes(servers.take(i)).len() as int),
        server_filetypes(servers.take(i)).len() <= server_filetypes(servers).len(),
    decreases servers.len() - i,
{
    if i == servers.len() {
        assert(servers.take(i) =~= servers);
        assert(server_filetypes(servers).take(server_filetypes(servers).len() as int) =~= server_filetypes(servers));
    } else {
        lemma_server_filetypes_prefix(servers, i + 1);
        let a = server_filetypes(servers.take(i));
        let b = server_filetypes(servers.take(i + 1));
        assert(servers.take(i + 1).drop_last() =~= servers.take(i));
        assert(b == a + servers[i].1@.map_values(|f: String| (servers[i].0@, f@)));
        assert(a =~= b.take(a.len() as int));
        assert(server_filetypes(servers).take(a.len() as int) =~= b.take(a.len() as int));
    }
}

} // verus!
