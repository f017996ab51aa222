//! The header of an editor request, read from its words: the session, the
//! client, the buffer and its version, the options that configure the
//! servers, and the method; the method's own parameters follow.

use vstd::prelude::*;
use crate::strings::{chars_of, push_str, str_eq};

verus! {

/// Whether `s` is one or more ASCII digits.
pub open spec fn is_digits(s: Seq<char>) -> bool {
    s.len() > 0 && forall|i: int| 0 <= i < s.len() ==> '0' <= #[trigger] s[i] <= '9'
}

/// The number that ASCII digits write.
pub open spec fn digits_value(s: Seq<char>) -> int
    decreases s.len(),
{
    if s.len() == 0 {
        0
    } else {
        digits_value(s.drop_last()) * 10 + (s.last() as int - '0' as int)
    }
}

/// The `i32` that a word writes, as `i32::from_str` reads it: an optional
/// sign, then ASCII digits, within the type's range.
pub open spec fn parse_i32(s: Seq<char>) -> Option<i32> {
    let negative = s.len() > 0 && s[0] == '-';
    let digits = if s.len() > 0 && (s[0] == '-' || s[0] == '+') { s.drop_first() } else { s };
    let v = if negative { -digits_value(digits) } else { digits_value(digits) };
    if is_digits(digits) && i32::MIN <= v <= i32::MAX {
        Some(v as i32)
    } else {
        None
    }
}

/// The `bool` that a word writes, as `bool::from_str` reads it.
pub open spec fn parse_bool(s: Seq<char>) -> Option<bool> {
    if s == "true"@ {
        Some(true)
    } else if s == "false"@ {
        Some(false)
    } else {
        None
    }
}

proof fn lemma_digits_value_prefix(s: Seq<char>, k: int)
    requires
        0 <= k < s.len(),
        forall|i: int| 0 <= i < s.len() ==> '0' <= #[trigger] s[i] <= '9',
    ensures
        digits_value(s.take(k + 1)) == digits_value(s.take(k)) * 10 + (s[k] as int - '0' as int),
        0 <= digits_value(s.take(k)) <= digits_value(s.take(k + 1)),
    decreases k,
{
    assert(s.take(k + 1).drop_last() =~= s.take(k));
    if k > 0 {
        lemma_digits_value_prefix(s, k - 1);
    } else {
        assert(s.take(0) =~= Seq::<char>::empty());
    }
}

pub proof fn lemma_digits_value_grows(s: Seq<char>, k: int)
    requires
        0 <= k <= s.len(),
        forall|i: int| 0 <= i < s.len() ==> '0' <= #[trigger] s[i] <= '9',
    ensures
        digits_value(s.take(k)) <= digits_value(s),
    decreases s.len() - k,
{
    if k < s.len() {
        lemma_digits_value_prefix(s, k);
        lemma_digits_value_grows(s, k + 1);
    } else {
        assert(s.take(k) =~= s);
    }
}

/// Reads a word as an `i32`; see `parse_i32`.
pub fn parse_i32_word(s: &str) -> (res: Option<i32>)
    ensures
        res == parse_i32(s@),
{
    let cs = chars_of(s);
    let n = cs.len();
    let negative = n > 0 && cs[0] == '-';
    let start: usize = if n > 0 && (cs[0] == '-' || cs[0] == '+') { 1 } else { 0 };
    let ghost digits = if s@.len() > 0 && (s@[0] == '-' || s@[0] == '+') { s@.drop_first() } else { s@ };
    proof {
        assert(digits =~= s@.skip(start as int));
    }
    if start >= n {
        return None;
    }
    let mut acc: u64 = 0;
    let mut k: usize = start;
    while k < n
        invariant
            start <= k <= n,
            n == cs.len(),
            cs@ == s@,
            digits.len() == n - start,
            digits == s@.skip(start as int),
            digits == (if s@.len() > 0 && (s@[0] == '-' || s@[0] == '+') { s@.drop_first() } else { s@ }),
            negative == (s@.len() > 0 && s@[0] == '-'),
            forall|i: int| 0 <= i < k - start ==> '0' <= #[trigger] digits[i] <= '9',
            acc == digits_value(digits.take(k - start)),
            acc <= 0x8000_0000,
        decreases n - k,
    {
        let c = cs[k];
        if !('0' <= c && c <= '9') {
            proof {
                assert(digits[k - start] == c);
                assert(!is_digits(digits));
            }
            return None;
        }
        proof {
            let d = digits.take(k - start + 1);
            assert(d.drop_last() =~= digits.take(k - start));
            assert(d.last() == c);
        }
        acc = acc * 10 + (c as u64 - '0' as u64);
        if acc > 0x8000_0000 {
            proof {
                assert forall|i: int| 0 <= i < k - start + 1 implies '0' <= #[trigger] digits.take(k - start + 1)[i] <= '9' by {
                    assert(digits.take(k - start + 1)[i] == digits[i]);
                }
                if is_digits(digits) {
                    lemma_digits_value_grows(digits, k - start + 1);
                }
            }
            return None;
        }
        k = k + 1;
    }
    proof {
        assert(digits.take(k - start) =~= digits);
    }
    if negative {
        Some((0 - (acc as i64)) as i32)
    } else if acc <= 0x7fff_ffff {
        Some(acc as i32)
    } else {
        None
    }
}

/// Reads a word as a `bool`; see `parse_bool`.
pub fn parse_bool_word(s: &str) -> (res: Option<bool>)
    ensures
        res == parse_bool(s@),
{
    if str_eq(s, "true") {
        Some(true)
    } else if str_eq(s, "false") {
        Some(false)
    } else {
        None
    }
}

/// The header of an editor request.
pub struct EditorRequestHead {
    pub session: String,
    /// The client, when the request names one.
    pub client: Option<String>,
    pub hook: bool,
    pub sourcing: bool,
    pub buffile: String,
    pub version: i32,
    pub filetype: String,
    pub language_id: String,
    /// The text of the `lsp_servers` option.
    pub lsp_servers: String,
    /// The text of the `lsp_semantic_tokens` option.
    pub lsp_semantic_tokens: String,
    /// The text of the `lsp_config` option.
    pub lsp_config: String,
    /// The words of the legacy initialization options, up to `map-end`.
    pub server_initialization_options: Vec<String>,
    pub method: String,
    /// The index of the first word of the method's parameters.
    pub params_start: usize,
}

/// A header as values.
pub struct RequestHeadView {
    pub session: Seq<char>,
    pub client: Option<Seq<char>>,
    pub hook: bool,
    pub sourcing: bool,
    pub buffile: Seq<char>,
    pub version: i32,
    pub filetype: Seq<char>,
    pub language_id: Seq<char>,
    pub lsp_servers: Seq<char>,
    pub lsp_semantic_tokens: Seq<char>,
    pub lsp_config: Seq<char>,
    pub server_initialization_options: Seq<Seq<char>>,
    pub method: Seq<char>,
    pub params_start: int,
}

/// What the words of a request begin with: the session's end, or a request.
pub enum RequestHead {
    Exit,
    Request(EditorRequestHead),
}

/// A head as values.
pub enum RequestHeadOutcome {
    Exit,
    Request(RequestHeadView),
}

/// Why the words do not make a request: more words are needed, or a word
/// is not what its place asks for, or the method is unknown.
#[derive(Clone, Copy, Debug, PartialEq, Eq, Structural)]
pub enum RequestParseError {
    Incomplete,
    BadBool { index: usize },
    BadNumber { index: usize },
    /// A word that must be one of a few keywords is none of them.
    BadWord { index: usize },
    /// A request id that is not JSON for a number, a string or null.
    BadJson { index: usize },
    /// A word that is not a TOML document.
    BadToml { index: usize },
    /// A method that no handler takes.
    UnknownMethod,
}

/// The words as text.
pub open spec fn words_view(words: Seq<String>) -> Seq<Seq<char>> {
    words.map_values(|w: String| w@)
}

impl RequestHead {
    pub open spec fn view(&self) -> RequestHeadOutcome {
        match self {
            RequestHead::Exit => RequestHeadOutcome::Exit,
            RequestHead::Request(h) => RequestHeadOutcome::Request(RequestHeadView {
                session: h.session@,
                client: match h.client { Some(c) => Some(c@), None => None },
                hook: h.hook,
                sourcing: h.sourcing,
                buffile: h.buffile@,
                version: h.version,
                filetype: h.filetype@,
                language_id: h.language_id@,
                lsp_servers: h.lsp_servers@,
                lsp_semantic_tokens: h.lsp_semantic_tokens@,
                lsp_config: h.lsp_config@,
                server_initialization_options: words_view(h.server_initialization_options@),
                method: h.method@,
                params_start: h.params_start as int,
            }),
        }
    }
}

/// The index of the first `map-end` at or after `from`.
pub open spec fn map_end(words: Seq<Seq<char>>, from: int) -> Option<int>
    decreases words.len() - from,
{
    if from < 0 || from >= words.len() {
        None
    } else if words[from] == "map-end"@ {
        Some(from)
    } else {
        map_end(words, from + 1)
    }
}

/// What the words of a request begin with: the session (`$exit` ends the
/// session), the client (none when empty), whether a hook and whether a
/// sourced script sent it, the buffer and its version, the filetype and
/// language, the texts of three options, the legacy initialization options
/// up to `map-end`, and the method. Each word is read in turn, so a word
/// that does not read stops the reading before the words after it are
/// needed.
pub open spec fn editor_request_of(words: Seq<Seq<char>>) -> Result<RequestHeadOutcome, RequestParseError> {
    if words.len() == 0 {
        Err(RequestParseError::Incomplete)
    } else if words[0] == "$exit"@ {
        Ok(RequestHeadOutcome::Exit)
    } else if words.len() <= 2 {
        Err(RequestParseError::Incomplete)
    } else if parse_bool(words[2]) is None {
        Err(RequestParseError::BadBool { index: 2 })
    } else if words.len() <= 3 {
        Err(RequestParseError::Incomplete)
    } else if parse_bool(words[3]) is None {
        Err(RequestParseError::BadBool { index: 3 })
    } else if words.len() <= 5 {
        Err(RequestParseError::Incomplete)
    } else if parse_i32(words[5]) is None {
        Err(RequestParseError::BadNumber { index: 5 })
    } else {
        match map_end(words, 11) {
            None => Err(RequestParseError::Incomplete),
            Some(m) => if m + 1 >= words.len() {
                Err(RequestParseError::Incomplete)
            } else {
                Ok(RequestHeadOutcome::Request(RequestHeadView {
                    session: words[0],
                    client: if words[1].len() == 0 { None } else { Some(words[1]) },
                    hook: parse_bool(words[2])->0,
                    sourcing: parse_bool(words[3])->0,
                    buffile: words[4],
                    version: parse_i32(words[5])->0,
                    filetype: words[6],
                    language_id: words[7],
                    lsp_servers: words[8],
                    lsp_semantic_tokens: words[9],
                    lsp_config: words[10],
                    server_initialization_options: words.subrange(11, m),
                    method: words[m + 1],
                    params_start: m + 2,
                }))
            },
        }
    }
}

/// A result as values.
pub open spec fn head_result_view(r: Result<RequestHead, RequestParseError>) -> Result<RequestHeadOutcome, RequestParseError> {
    match r {
        Ok(h) => Ok(h.view()),
        Err(e) => Err(e),
    }
}

fn copy_word(s: &str) -> (res: String)
    ensures
        res@ == s@,
{
    let mut out = String::new();
    push_str(&mut out, s);
    out
}

/// Reads the header of a request from its words; see `editor_request_of`.
pub fn parse_editor_request(words: &Vec<String>) -> (res: Result<RequestHead, RequestParseError>)
    ensures
        head_result_view(res) == editor_request_of(words_view(words@)),
{
    let ghost wv = words_view(words@);
    proof {
        reveal_strlit("$exit");
        reveal_strlit("map-end");
    }
    if words.len() == 0 {
        return Err(RequestParseError::Incomplete);
    }
    assert(wv[0] == words@[0]@);
    if str_eq(words[0].as_str(), "$exit") {
        return Ok(RequestHead::Exit);
    }
    if words.len() <= 2 {
        return Err(RequestParseError::Incomplete);
    }
    assert(wv[2] == words@[2]@);
    let hook = match parse_bool_word(words[2].as_str()) {
        Some(b) => b,
        None => return Err(RequestParseError::BadBool { index: 2 }),
    };
    if words.len() <= 3 {
        return Err(RequestParseError::Incomplete);
    }
    assert(wv[3] == words@[3]@);
    let sourcing = match parse_bool_word(words[3].as_str()) {
        Some(b) => b,
        None => return Err(RequestParseError::BadBool { index: 3 }),
    };
    if words.len() <= 5 {
        return Err(RequestParseError::Incomplete);
    }
    assert(wv[5] == words@[5]@);
    let version = match parse_i32_word(words[5].as_str()) {
        Some(v) => v,
        None => return Err(RequestParseError::BadNumber { index: 5 }),
    };
    let mut options: Vec<String> = Vec::new();
    let mut k: usize = 11;
    while k < words.len() && !str_eq(words[k].as_str(), "map-end")
        invariant
            11 <= k,
            k <= words.len() || words.len() < 11,
            wv == words_view(words@),
            map_end(wv, 11) == map_end(wv, k as int),
            words.len() >= 11 ==> words_view(options@) == wv.subrange(11, k as int),
        decreases words.len() - k,
    {
        proof {
            assert(wv[k as int] == words@[k as int]@);
            assert(map_end(wv, k as int) == map_end(wv, k + 1));
        }
        let w = copy_word(words[k].as_str());
        options.push(w);
        proof {
            assert(words_view(options@) =~= wv.subrange(11, k + 1));
        }
        k = k + 1;
    }
    if k >= words.len() {
        proof {
            assert(map_end(wv, k as int) is None);
        }
        return Err(RequestParseError::Incomplete);
    }
    proof {
        assert(wv[k as int] == words@[k as int]@);
        assert(map_end(wv, k as int) == Some(k as int));
    }
    if k + 1 >= words.len() {
        return Err(RequestParseError::Incomplete);
    }
    proof {
        assert forall|j: int| 0 <= j < 11 implies wv[j] == words@[j]@ by {}
        assert(wv[k + 1] == words@[k + 1]@);
    }
    let client = if words[1].as_str().unicode_len() == 0 { None } else { Some(copy_word(words[1].as_str())) };
    let head = EditorRequestHead {
        session: copy_word(words[0].as_str()),
        client,
        hook,
        sourcing,
        buffile: copy_word(words[4].as_str()),
        version,
        filetype: copy_word(words[6].as_str()),
        language_id: copy_word(words[7].as_str()),
        lsp_servers: copy_word(words[8].as_str()),
        lsp_semantic_tokens: copy_word(words[9].as_str()),
        lsp_config: copy_word(words[10].as_str()),
        server_initialization_options: options,
        method: copy_word(words[k + 1].as_str()),
        params_start: k + 2,
    };
    Ok(RequestHead::Request(head))
}

} // verus!
