//! The parameters of an editor request, read from the words that follow its
//! method. Each method has its own layout: numbers, flags, positions (a line
//! and a column), counted lists, and for some methods a trailer that names
//! the fifo on which the editor waits for the answer.

use vstd::prelude::*;
use crate::editor_request::{
    RequestParseError, words_view, is_digits, digits_value, map_end, parse_bool, parse_bool_word,
    lemma_digits_value_grows,
};
use crate::language_features::code_action::CodeActionFilter;
use crate::strings::{chars_of, push_str, str_eq};
use crate::types::KakounePosition;

verus! {

// ---------------------------------------------------------------------------
// Reading one word at a time

/// Chains a reading on to the next one; an error stops the chain.
pub open spec fn bind<A, B>(r: Result<A, RequestParseError>, f: spec_fn(A) -> Result<B, RequestParseError>) -> Result<B, RequestParseError> {
    match r {
        Ok(a) => f(a),
        Err(e) => Err(e),
    }
}

/// The word at `k`, and the index after it.
pub open spec fn word_at(w: Seq<Seq<char>>, k: int) -> Result<(Seq<char>, int), RequestParseError> {
    if 0 <= k < w.len() {
        Ok((w[k], k + 1))
    } else {
        Err(RequestParseError::Incomplete)
    }
}

/// The word at `k`, none when it is empty.
pub open spec fn opt_word_at(w: Seq<Seq<char>>, k: int) -> Result<(Option<Seq<char>>, int), RequestParseError> {
    bind(word_at(w, k), |r: (Seq<char>, int)| Ok((if r.0.len() == 0 { None } else { Some(r.0) }, r.1)))
}

/// The `bool` at `k`.
pub open spec fn bool_at(w: Seq<Seq<char>>, k: int) -> Result<(bool, int), RequestParseError> {
    bind(word_at(w, k), |r: (Seq<char>, int)| match parse_bool(r.0) {
        Some(b) => Ok((b, r.1)),
        None => Err(RequestParseError::BadBool { index: k as usize }),
    })
}

/// The number that a word writes, as `from_str` of an integer type reads
/// it: an optional `+` (or `-` for a signed type), then ASCII digits.
pub open spec fn parse_number(s: Seq<char>, signed: bool) -> Option<int> {
    let negative = signed && s.len() > 0 && s[0] == '-';
    let has_sign = s.len() > 0 && (s[0] == '+' || negative);
    let digits = if has_sign { s.drop_first() } else { s };
    if is_digits(digits) {
        Some(if negative { -digits_value(digits) } else { digits_value(digits) })
    } else {
        None
    }
}

/// The number at `k`, for a type whose values run from `lo` to `hi`.
pub open spec fn number_at(w: Seq<Seq<char>>, k: int, signed: bool, lo: int, hi: int) -> Result<(int, int), RequestParseError> {
    bind(word_at(w, k), |r: (Seq<char>, int)| match parse_number(r.0, signed) {
        Some(v) => if lo <= v <= hi { Ok((v, r.1)) } else { Err(RequestParseError::BadNumber { index: k as usize }) },
        None => Err(RequestParseError::BadNumber { index: k as usize }),
    })
}

pub open spec fn u32_at(w: Seq<Seq<char>>, k: int) -> Result<(u32, int), RequestParseError> {
    bind(number_at(w, k, false, 0, u32::MAX as int), |r: (int, int)| Ok((r.0 as u32, r.1)))
}

pub open spec fn i32_at(w: Seq<Seq<char>>, k: int) -> Result<(i32, int), RequestParseError> {
    bind(number_at(w, k, true, i32::MIN as int, i32::MAX as int), |r: (int, int)| Ok((r.0 as i32, r.1)))
}

pub open spec fn usize_at(w: Seq<Seq<char>>, k: int) -> Result<(usize, int), RequestParseError> {
    bind(number_at(w, k, false, 0, usize::MAX as int), |r: (int, int)| Ok((r.0 as usize, r.1)))
}

pub open spec fn isize_at(w: Seq<Seq<char>>, k: int) -> Result<(isize, int), RequestParseError> {
    bind(number_at(w, k, true, isize::MIN as int, isize::MAX as int), |r: (int, int)| Ok((r.0 as isize, r.1)))
}

pub open spec fn u8_at(w: Seq<Seq<char>>, k: int) -> Result<(u8, int), RequestParseError> {
    bind(number_at(w, k, false, 0, u8::MAX as int), |r: (int, int)| Ok((r.0 as u8, r.1)))
}

/// A Kakoune position at `k`: its line, then its column.
pub open spec fn position_at(w: Seq<Seq<char>>, k: int) -> Result<(KakounePosition, int), RequestParseError> {
    bind(u32_at(w, k), |a: (u32, int)| bind(u32_at(w, a.1), |b: (u32, int)| Ok((KakounePosition { line: a.0, column: b.0 }, b.1))))
}

/// The `n` words from `k`.
pub open spec fn words_at(w: Seq<Seq<char>>, k: int, n: int) -> Result<(Seq<Seq<char>>, int), RequestParseError> {
    if 0 <= k && 0 <= n && k + n <= w.len() {
        Ok((w.subrange(k, k + n), k + n))
    } else {
        Err(RequestParseError::Incomplete)
    }
}

/// Whether the word at `k` asks for a synchronous answer (`is-sync`; any
/// other word does not).
pub open spec fn sync_at(w: Seq<Seq<char>>, k: int) -> Result<(bool, int), RequestParseError> {
    bind(word_at(w, k), |r: (Seq<char>, int)| Ok((r.0 == "is-sync"@, r.1)))
}

/// The fifo on which the editor waits, named by the word at `k` where the
/// request is synchronous.
pub open spec fn trailer_at(w: Seq<Seq<char>>, k: int, sync: bool) -> Result<(Option<Seq<char>>, int), RequestParseError> {
    if sync {
        bind(word_at(w, k), |r: (Seq<char>, int)| Ok((Some(r.0), r.1)))
    } else {
        Ok((None, k))
    }
}

fn copy_word(s: &str) -> (res: String)
    ensures
        res@ == s@,
{
    let mut out = String::new();
    push_str(&mut out, s);
    out
}

fn read_word(words: &Vec<String>, k: usize) -> (res: Result<(String, usize), RequestParseError>)
    ensures
        match res {
            Ok((s, n)) => word_at(words_view(words@), k as int) == Ok::<(Seq<char>, int), RequestParseError>((s@, n as int)),
            Err(e) => word_at(words_view(words@), k as int) == Err::<(Seq<char>, int), RequestParseError>(e),
        },
{
    if k < words.len() {
        assert(words_view(words@)[k as int] == words@[k as int]@);
        Ok((copy_word(words[k].as_str()), k + 1))
    } else {
        Err(RequestParseError::Incomplete)
    }
}

fn read_opt_word(words: &Vec<String>, k: usize) -> (res: Result<(Option<String>, usize), RequestParseError>)
    ensures
        match res {
            Ok((s, n)) => opt_word_at(words_view(words@), k as int) == Ok::<(Option<Seq<char>>, int), RequestParseError>((opt_view(s), n as int)),
            Err(e) => opt_word_at(words_view(words@), k as int) == Err::<(Option<Seq<char>>, int), RequestParseError>(e),
        },
{
    let (s, n) = read_word(words, k)?;
    if s.as_str().unicode_len() == 0 {
        Ok((None, n))
    } else {
        Ok((Some(s), n))
    }
}

fn read_bool(words: &Vec<String>, k: usize) -> (res: Result<(bool, usize), RequestParseError>)
    ensures
        match res {
            Ok((b, n)) => bool_at(words_view(words@), k as int) == Ok::<(bool, int), RequestParseError>((b, n as int)),
            Err(e) => bool_at(words_view(words@), k as int) == Err::<(bool, int), RequestParseError>(e),
        },
{
    let (s, n) = read_word(words, k)?;
    match parse_bool_word(s.as_str()) {
        Some(b) => Ok((b, n)),
        None => Err(RequestParseError::BadBool { index: k }),
    }
}

fn read_sync(words: &Vec<String>, k: usize) -> (res: Result<(bool, usize), RequestParseError>)
    ensures
        match res {
            Ok((b, n)) => sync_at(words_view(words@), k as int) == Ok::<(bool, int), RequestParseError>((b, n as int)),
            Err(e) => sync_at(words_view(words@), k as int) == Err::<(bool, int), RequestParseError>(e),
        },
{
    let (s, n) = read_word(words, k)?;
    Ok((str_eq(s.as_str(), "is-sync"), n))
}

fn read_trailer(words: &Vec<String>, k: usize, sync: bool) -> (res: Result<(Option<String>, usize), RequestParseError>)
    ensures
        match res {
            Ok((s, n)) => trailer_at(words_view(words@), k as int, sync) == Ok::<(Option<Seq<char>>, int), RequestParseError>((opt_view(s), n as int)),
            Err(e) => trailer_at(words_view(words@), k as int, sync) == Err::<(Option<Seq<char>>, int), RequestParseError>(e),
        },
{
    if sync {
        let (s, n) = read_word(words, k)?;
        Ok((Some(s), n))
    } else {
        Ok((None, k))
    }
}

fn read_words(words: &Vec<String>, k: usize, count: usize) -> (res: Result<(Vec<String>, usize), RequestParseError>)
    ensures
        match res {
            Ok((s, n)) => words_at(words_view(words@), k as int, count as int) == Ok::<(Seq<Seq<char>>, int), RequestParseError>((words_view(s@), n as int)),
            Err(e) => words_at(words_view(words@), k as int, count as int) == Err::<(Seq<Seq<char>>, int), RequestParseError>(e),
        },
{
    let ghost wv = words_view(words@);
    if k > words.len() || count > words.len() - k {
        return Err(RequestParseError::Incomplete);
    }
    let mut out: Vec<String> = Vec::new();
    let mut i: usize = 0;
    while i < count
        invariant
            k + count <= words.len(),
            i <= count,
            wv == words_view(words@),
            words_view(out@) == wv.subrange(k as int, k + i),
        decreases count - i,
    {
        assert(wv[k + i] == words@[k + i]@);
        let w = copy_word(words[k + i].as_str());
        let ghost before = out@;
        out.push(w);
        assert(words_view(out@) =~= words_view(before).push(w@));
        assert(words_view(out@) =~= wv.subrange(k as int, k + i + 1));
        i += 1;
    }
    Ok((out, k + count))
}

pub open spec fn opt_view(s: Option<String>) -> Option<Seq<char>> {
    match s {
        Some(t) => Some(t@),
        None => None,
    }
}

/// Reads a number for a type whose values run from `-max_neg` to
/// `max_pos`: its sign and magnitude.
fn read_number(words: &Vec<String>, k: usize, signed: bool, max_pos: u64, max_neg: u64) -> (res: Result<(bool, u64, usize), RequestParseError>)
    requires
        !signed ==> max_neg == 0,
    ensures
        match res {
            Ok((neg, mag, n)) => number_at(words_view(words@), k as int, signed, -(max_neg as int), max_pos as int)
                == Ok::<(int, int), RequestParseError>((if neg { -(mag as int) } else { mag as int }, n as int)),
            Err(e) => number_at(words_view(words@), k as int, signed, -(max_neg as int), max_pos as int) == Err::<(int, int), RequestParseError>(e),
        },
{
    let (word, next) = read_word(words, k)?;
    let ghost s = word@;
    let cs = chars_of(word.as_str());
    let len = cs.len();
    let negative = signed && len > 0 && cs[0] == '-';
    let has_sign = len > 0 && (cs[0] == '+' || negative);
    let start: usize = if has_sign { 1 } else { 0 };
    let limit: u64 = if negative { max_neg } else { max_pos };
    let ghost digits = if has_sign { s.drop_first() } else { s };
    proof {
        assert(digits =~= s.skip(start as int));
    }
    if start >= len {
        return Err(RequestParseError::BadNumber { index: k });
    }
    let mut acc: u128 = 0;
    let mut i: usize = start;
    while i < len
        invariant
            start <= i <= len,
            len == cs.len(),
            cs@ == s,
            digits == s.skip(start as int),
            digits.len() == len - start,
            forall|j: int| 0 <= j < i - start ==> '0' <= #[trigger] digits[j] <= '9',
            acc == digits_value(digits.take(i - start)),
            acc <= limit,
            word_at(words_view(words@), k as int) == Ok::<(Seq<char>, int), RequestParseError>((s, next as int)),
            negative == (signed && s.len() > 0 && s[0] == '-'),
            has_sign == (s.len() > 0 && (s[0] == '+' || negative)),
            digits == (if has_sign { s.drop_first() } else { s }),
            limit == (if negative { max_neg } else { max_pos }),
            !signed ==> max_neg == 0,
        decreases len - i,
    {
        let c = cs[i];
        if !('0' <= c && c <= '9') {
            proof {
                assert(digits[i - start] == c);
            }
            return Err(RequestParseError::BadNumber { index: k });
        }
        proof {
            let d = digits.take(i - start + 1);
            assert(d.drop_last() =~= digits.take(i - start));
            assert(d.last() == c);
        }
        acc = acc * 10 + (c as u128 - '0' as u128);
        if acc > limit as u128 {
            proof {
                assert forall|j: int| 0 <= j < i - start + 1 implies '0' <= #[trigger] digits.take(i - start + 1)[j] <= '9' by {
                    assert(digits.take(i - start + 1)[j] == digits[j]);
                }
                if is_digits(digits) {
                    lemma_digits_value_grows(digits, i - start + 1);
                }
            }
            return Err(RequestParseError::BadNumber { index: k });
        }
        i += 1;
    }
    proof {
        assert(digits.take(i - start) =~= digits);
    }
    Ok((negative, acc as u64, next))
}

fn read_u32(words: &Vec<String>, k: usize) -> (res: Result<(u32, usize), RequestParseError>)
    ensures
        match res {
            Ok((v, n)) => u32_at(words_view(words@), k as int) == Ok::<(u32, int), RequestParseError>((v, n as int)),
            Err(e) => u32_at(words_view(words@), k as int) == Err::<(u32, int), RequestParseError>(e),
        },
{
    let (_neg, mag, n) = read_number(words, k, false, 0xffff_ffff, 0)?;
    Ok((mag as u32, n))
}

fn read_u8(words: &Vec<String>, k: usize) -> (res: Result<(u8, usize), RequestParseError>)
    ensures
        match res {
            Ok((v, n)) => u8_at(words_view(words@), k as int) == Ok::<(u8, int), RequestParseError>((v, n as int)),
            Err(e) => u8_at(words_view(words@), k as int) == Err::<(u8, int), RequestParseError>(e),
        },
{
    let (_neg, mag, n) = read_number(words, k, false, 0xff, 0)?;
    Ok((mag as u8, n))
}

fn read_usize(words: &Vec<String>, k: usize) -> (res: Result<(usize, usize), RequestParseError>)
    ensures
        match res {
            Ok((v, n)) => usize_at(words_view(words@), k as int) == Ok::<(usize, int), RequestParseError>((v, n as int)),
            Err(e) => usize_at(words_view(words@), k as int) == Err::<(usize, int), RequestParseError>(e),
        },
{
    let (_neg, mag, n) = read_number(words, k, false, usize::MAX as u64, 0)?;
    Ok((mag as usize, n))
}

fn read_i32(words: &Vec<String>, k: usize) -> (res: Result<(i32, usize), RequestParseError>)
    ensures
        match res {
            Ok((v, n)) => i32_at(words_view(words@), k as int) == Ok::<(i32, int), RequestParseError>((v, n as int)),
            Err(e) => i32_at(words_view(words@), k as int) == Err::<(i32, int), RequestParseError>(e),
        },
{
    let (neg, mag, n) = read_number(words, k, true, 0x7fff_ffff, 0x8000_0000)?;
    if neg {
        Ok(((0 - (mag as i64)) as i32, n))
    } else {
        Ok((mag as i32, n))
    }
}

fn read_isize(words: &Vec<String>, k: usize) -> (res: Result<(isize, usize), RequestParseError>)
    ensures
        match res {
            Ok((v, n)) => isize_at(words_view(words@), k as int) == Ok::<(isize, int), RequestParseError>((v, n as int)),
            Err(e) => isize_at(words_view(words@), k as int) == Err::<(isize, int), RequestParseError>(e),
        },
{
    let (neg, mag, n) = read_number(words, k, true, isize::MAX as u64, isize::MAX as u64 + 1)?;
    if neg {
        if mag == isize::MAX as u64 + 1 {
            Ok((isize::MIN, n))
        } else {
            Ok((0 - (mag as isize), n))
        }
    } else {
        Ok((mag as isize, n))
    }
}

fn read_position(words: &Vec<String>, k: usize) -> (res: Result<(KakounePosition, usize), RequestParseError>)
    ensures
        match res {
            Ok((p, n)) => position_at(words_view(words@), k as int) == Ok::<(KakounePosition, int), RequestParseError>((p, n as int)),
            Err(e) => position_at(words_view(words@), k as int) == Err::<(KakounePosition, int), RequestParseError>(e),
        },
{
    let (line, k) = read_u32(words, k)?;
    let (column, k) = read_u32(words, k)?;
    Ok((KakounePosition { line, column }, k))
}

// ---------------------------------------------------------------------------
// Values read by outside parsers

/// A TOML value, one for one: a float is kept as the bits of its `f64`,
/// a date-time as its text.
#[derive(Debug)]
pub enum TomlValue {
    String(String),
    Integer(i64),
    Float(u64),
    Boolean(bool),
    Datetime(String),
    Array(Vec<TomlValue>),
    Table(Vec<(String, TomlValue)>),
}

/// What `toml::from_str` reads a text as, when it reads it as a
/// `toml::Value` (a whole document, so a table).
pub uninterp spec fn toml_value_of(s: Seq<char>) -> Option<TomlValue>;

/// Reads a text with `toml::from_str` into a `toml::Value`, turned one for
/// one into a `TomlValue`; `None` where the text is not a TOML document.
/// Stated only as the named result `toml_value_of`.
#[verifier::external_body]
pub fn parse_toml_value(s: &str) -> (res: Option<TomlValue>)
    ensures
        res == toml_value_of(s@),
{
    let value: toml::Value = toml::from_str(s).ok()?;
    Some(toml_value(value))
}

#[verifier::external_type_specification]
#[verifier::external_body]
pub struct ExTomlValue(toml::Value);

/// A `toml::Value` as a `TomlValue`, one for one, tables in the order the
/// table gives its entries.
#[verifier::external_body]
fn toml_value(value: toml::Value) -> TomlValue {
    match value {
        toml::Value::String(s) => TomlValue::String(s),
        toml::Value::Integer(i) => TomlValue::Integer(i),
        toml::Value::Float(f) => TomlValue::Float(f.to_bits()),
        toml::Value::Boolean(b) => TomlValue::Boolean(b),
        toml::Value::Datetime(d) => TomlValue::Datetime(d.to_string()),
        toml::Value::Array(a) => TomlValue::Array(a.into_iter().map(toml_value).collect()),
        toml::Value::Table(t) => TomlValue::Table(t.into_iter().map(|(k, v)| (k, toml_value(v))).collect()),
    }
}

/// A JSON-RPC request id: a number, a string or null.
#[derive(Debug, PartialEq, Eq)]
pub enum RequestIdValue {
    Num(u64),
    Str(String),
    Null,
}

/// What `serde_json::from_str` reads a text as, taken as a request id: a
/// number that fits `u64`, a string, or null.
pub uninterp spec fn json_request_id(s: Seq<char>) -> Option<RequestIdValue>;

/// Reads a request id with `serde_json::from_str` into a
/// `serde_json::Value`: a number that `as_u64` gives, a string, or null;
/// `None` for any other value or a text that is not JSON. Stated only as the
/// named result `json_request_id`.
#[verifier::external_body]
fn parse_request_id(s: &str) -> (res: Option<RequestIdValue>)
    ensures
        res == json_request_id(s@),
{
    match serde_json::from_str::<serde_json::Value>(s).ok()? {
        serde_json::Value::Null => Some(RequestIdValue::Null),
        serde_json::Value::String(t) => Some(RequestIdValue::Str(t)),
        serde_json::Value::Number(n) => n.as_u64().map(RequestIdValue::Num),
        _ => None,
    }
}

// ---------------------------------------------------------------------------
// The parameters of each method

/// The parameters of an editor request.
pub enum RequestParams {
    /// A method without parameters.
    NoParams,
    Position(KakounePosition),
    /// A position, after the pattern of a word at it.
    WordRegexPosition { word_regex: String, position: KakounePosition },
    CclsCall { position: KakounePosition, callee: bool },
    CclsInheritance { position: KakounePosition, levels: usize, derived: bool },
    CclsMember { position: KakounePosition, kind: u8 },
    CclsNavigate { position: KakounePosition, direction: String },
    ApplyEdit { edit: String, response_fifo: Option<String> },
    CodeActionResolve { code_action: String },
    CompletionItemResolve { timestamp: i32, index: isize, pager_active: bool },
    Breadcrumbs { position_line: u32 },
    GotoSymbol { goto_symbol: Option<String> },
    NextOrPrevSymbol { position: KakounePosition, search_next: bool, hover: bool, symbol_kinds: Vec<String> },
    Object { count: u32, mode: String, selections_desc: Vec<String>, symbol_kinds: Vec<String> },
    CodeLens { selection_desc: String },
    /// The debug option changed; nothing is sent on.
    DebugOption { debug: bool },
    CodeActions {
        selection_desc: String,
        perform_code_action: bool,
        filters: Option<CodeActionFilter>,
        response_fifo: Option<String>,
    },
    Completion { position: KakounePosition, offset: u32 },
    /// The buffer's text follows on the other fifo: this many lines.
    Draft { line_count: usize },
    Formatting { tab_size: u32, insert_spaces: bool, server_override: Option<String>, response_fifo: Option<String> },
    Hover { selection_desc: String, tabstop: usize, hover_client: Option<String> },
    InlayHint { buf_line_count: u32 },
    CallHierarchy { position: KakounePosition, incoming_or_outgoing: bool },
    RangeFormatting {
        tab_size: u32,
        insert_spaces: bool,
        ranges: Vec<String>,
        server_override: Option<String>,
        response_fifo: Option<String>,
    },
    Rename { position: KakounePosition, new_name: String },
    SelectionRange { position: KakounePosition, selections_desc: Vec<String> },
    MessageRespond { message_request_id: RequestIdValue, item: Option<TomlValue> },
    WorkDoneProgressCancel { token: String },
    DidChangeConfiguration { config: String, server_configuration: Vec<String> },
    ExecuteCommand { command: String, arguments: String, response_fifo: Option<String> },
    WorkspaceSymbol { buffile: String, version: i32, query: String },
    /// A request that is read and dropped: the resolution of no completion
    /// item, or a workspace symbol search for nothing.
    Ignored,
}

/// A code-action filter as values.
pub enum FilterView {
    ByKind(Seq<Seq<char>>),
    ByRegex(Seq<char>),
}

pub open spec fn filter_view(f: Option<CodeActionFilter>) -> Option<FilterView> {
    match f {
        Some(CodeActionFilter::ByKind(v)) => Some(FilterView::ByKind(words_view(v@))),
        Some(CodeActionFilter::ByRegex(p)) => Some(FilterView::ByRegex(p@)),
        None => None,
    }
}

/// Parameters as values.
pub enum ParamsView {
    NoParams,
    Position(KakounePosition),
    WordRegexPosition { word_regex: Seq<char>, position: KakounePosition },
    CclsCall { position: KakounePosition, callee: bool },
    CclsInheritance { position: KakounePosition, levels: usize, derived: bool },
    CclsMember { position: KakounePosition, kind: u8 },
    CclsNavigate { position: KakounePosition, direction: Seq<char> },
    ApplyEdit { edit: Seq<char>, response_fifo: Option<Seq<char>> },
    CodeActionResolve { code_action: Seq<char> },
    CompletionItemResolve { timestamp: i32, index: isize, pager_active: bool },
    Breadcrumbs { position_line: u32 },
    GotoSymbol { goto_symbol: Option<Seq<char>> },
    NextOrPrevSymbol { position: KakounePosition, search_next: bool, hover: bool, symbol_kinds: Seq<Seq<char>> },
    Object { count: u32, mode: Seq<char>, selections_desc: Seq<Seq<char>>, symbol_kinds: Seq<Seq<char>> },
    CodeLens { selection_desc: Seq<char> },
    DebugOption { debug: bool },
    CodeActions { selection_desc: Seq<char>, perform_code_action: bool, filters: Option<FilterView>, response_fifo: Option<Seq<char>> },
    Completion { position: KakounePosition, offset: u32 },
    Draft { line_count: usize },
    Formatting { tab_size: u32, insert_spaces: bool, server_override: Option<Seq<char>>, response_fifo: Option<Seq<char>> },
    Hover { selection_desc: Seq<char>, tabstop: usize, hover_client: Option<Seq<char>> },
    InlayHint { buf_line_count: u32 },
    CallHierarchy { position: KakounePosition, incoming_or_outgoing: bool },
    RangeFormatting {
        tab_size: u32,
        insert_spaces: bool,
        ranges: Seq<Seq<char>>,
        server_override: Option<Seq<char>>,
        response_fifo: Option<Seq<char>>,
    },
    Rename { position: KakounePosition, new_name: Seq<char> },
    SelectionRange { position: KakounePosition, selections_desc: Seq<Seq<char>> },
    MessageRespond { message_request_id: RequestIdValue, item: Option<TomlValue> },
    WorkDoneProgressCancel { token: Seq<char> },
    DidChangeConfiguration { config: Seq<char>, server_configuration: Seq<Seq<char>> },
    ExecuteCommand { command: Seq<char>, arguments: Seq<char>, response_fifo: Option<Seq<char>> },
    WorkspaceSymbol { buffile: Seq<char>, version: i32, query: Seq<char> },
    Ignored,
}

impl RequestParams {
    pub open spec fn view(&self) -> ParamsView {
        match self {
            RequestParams::NoParams => ParamsView::NoParams,
            RequestParams::Position(p) => ParamsView::Position(*p),
            RequestParams::WordRegexPosition { word_regex, position } => ParamsView::WordRegexPosition { word_regex: word_regex@, position: *position },
            RequestParams::CclsCall { position, callee } => ParamsView::CclsCall { position: *position, callee: *callee },
            RequestParams::CclsInheritance { position, levels, derived } => ParamsView::CclsInheritance { position: *position, levels: *levels, derived: *derived },
            RequestParams::CclsMember { position, kind } => ParamsView::CclsMember { position: *position, kind: *kind },
            RequestParams::CclsNavigate { position, direction } => ParamsView::CclsNavigate { position: *position, direction: direction@ },
            RequestParams::ApplyEdit { edit, response_fifo } => ParamsView::ApplyEdit { edit: edit@, response_fifo: opt_view(*response_fifo) },
            RequestParams::CodeActionResolve { code_action } => ParamsView::CodeActionResolve { code_action: code_action@ },
            RequestParams::CompletionItemResolve { timestamp, index, pager_active } => ParamsView::CompletionItemResolve { timestamp: *timestamp, index: *index, pager_active: *pager_active },
            RequestParams::Breadcrumbs { position_line } => ParamsView::Breadcrumbs { position_line: *position_line },
            RequestParams::GotoSymbol { goto_symbol } => ParamsView::GotoSymbol { goto_symbol: opt_view(*goto_symbol) },
            RequestParams::NextOrPrevSymbol { position, search_next, hover, symbol_kinds } => ParamsView::NextOrPrevSymbol {
                position: *position,
                search_next: *search_next,
                hover: *hover,
                symbol_kinds: words_view(symbol_kinds@),
            },
            RequestParams::Object { count, mode, selections_desc, symbol_kinds } => ParamsView::Object {
                count: *count,
                mode: mode@,
                selections_desc: words_view(selections_desc@),
                symbol_kinds: words_view(symbol_kinds@),
            },
            RequestParams::CodeLens { selection_desc } => ParamsView::CodeLens { selection_desc: selection_desc@ },
            RequestParams::DebugOption { debug } => ParamsView::DebugOption { debug: *debug },
            RequestParams::CodeActions { selection_desc, perform_code_action, filters, response_fifo } => ParamsView::CodeActions {
                selection_desc: selection_desc@,
                perform_code_action: *perform_code_action,
                filters: filter_view(*filters),
                response_fifo: opt_view(*response_fifo),
            },
            RequestParams::Completion { position, offset } => ParamsView::Completion { position: *position, offset: *offset },
            RequestParams::Draft { line_count } => ParamsView::Draft { line_count: *line_count },
            RequestParams::Formatting { tab_size, insert_spaces, server_override, response_fifo } => ParamsView::Formatting {
                tab_size: *tab_size,
                insert_spaces: *insert_spaces,
                server_override: opt_view(*server_override),
                response_fifo: opt_view(*response_fifo),
            },
            RequestParams::Hover { selection_desc, tabstop, hover_client } => ParamsView::Hover {
                selection_desc: selection_desc@,
                tabstop: *tabstop,
                hover_client: opt_view(*hover_client),
            },
            RequestParams::InlayHint { buf_line_count } => ParamsView::InlayHint { buf_line_count: *buf_line_count },
            RequestParams::CallHierarchy { position, incoming_or_outgoing } => ParamsView::CallHierarchy { position: *position, incoming_or_outgoing: *incoming_or_outgoing },
            RequestParams::RangeFormatting { tab_size, insert_spaces, ranges, server_override, response_fifo } => ParamsView::RangeFormatting {
                tab_size: *tab_size,
                insert_spaces: *insert_spaces,
                ranges: words_view(ranges@),
                server_override: opt_view(*server_override),
                response_fifo: opt_view(*response_fifo),
            },
            RequestParams::Rename { position, new_name } => ParamsView::Rename { position: *position, new_name: new_name@ },
            RequestParams::SelectionRange { position, selections_desc } => ParamsView::SelectionRange { position: *position, selections_desc: words_view(selections_desc@) },
            RequestParams::MessageRespond { message_request_id, item } => ParamsView::MessageRespond { message_request_id: *message_request_id, item: *item },
            RequestParams::WorkDoneProgressCancel { token } => ParamsView::WorkDoneProgressCancel { token: token@ },
            RequestParams::DidChangeConfiguration { config, server_configuration } => ParamsView::DidChangeConfiguration {
                config: config@,
                server_configuration: words_view(server_configuration@),
            },
            RequestParams::ExecuteCommand { command, arguments, response_fifo } => ParamsView::ExecuteCommand {
                command: command@,
                arguments: arguments@,
                response_fifo: opt_view(*response_fifo),
            },
            RequestParams::WorkspaceSymbol { buffile, version, query } => ParamsView::WorkspaceSymbol { buffile: buffile@, version: *version, query: query@ },
            RequestParams::Ignored => ParamsView::Ignored,
        }
    }
}

/// A result as values.
pub open spec fn params_result_view(r: Result<(RequestParams, usize), RequestParseError>) -> Result<(ParamsView, int), RequestParseError> {
    match r {
        Ok((p, n)) => Ok((p.view(), n as int)),
        Err(e) => Err(e),
    }
}

pub open spec fn position_params_of(w: Seq<Seq<char>>, s: int) -> Result<(ParamsView, int), RequestParseError> {
    bind(position_at(w, s), |r_p: (KakounePosition, int)| Ok((ParamsView::Position(r_p.0), r_p.1)))
}

fn parse_position_params(words: &Vec<String>, start: usize) -> (res: Result<(RequestParams, usize), RequestParseError>)
    ensures
        params_result_view(res) == position_params_of(words_view(words@), start as int),
{
    let (p, k) = read_position(words, start)?;
    Ok((RequestParams::Position(p), k))
}

pub open spec fn word_regex_position_of(w: Seq<Seq<char>>, s: int) -> Result<(ParamsView, int), RequestParseError> {
    bind(word_at(w, s), |r_a: (Seq<char>, int)| bind(position_at(w, r_a.1), |r_p: (KakounePosition, int)| Ok((ParamsView::WordRegexPosition { word_regex: r_a.0, position: r_p.0 }, r_p.1))))
}

fn parse_word_regex_position(words: &Vec<String>, start: usize) -> (res: Result<(RequestParams, usize), RequestParseError>)
    ensures
        params_result_view(res) == word_regex_position_of(words_view(words@), start as int),
{
    let (a, k) = read_word(words, start)?;
    let (p, k) = read_position(words, k)?;
    Ok((RequestParams::WordRegexPosition { word_regex: a, position: p }, k))
}

pub open spec fn ccls_call_of(w: Seq<Seq<char>>, s: int) -> Result<(ParamsView, int), RequestParseError> {
    bind(position_at(w, s), |r_p: (KakounePosition, int)| bind(bool_at(w, r_p.1), |r_b: (bool, int)| Ok((ParamsView::CclsCall { position: r_p.0, callee: r_b.0 }, r_b.1))))
}

fn parse_ccls_call(words: &Vec<String>, start: usize) -> (res: Result<(RequestParams, usize), RequestParseError>)
    ensures
        params_result_view(res) == ccls_call_of(words_view(words@), start as int),
{
    let (p, k) = read_position(words, start)?;
    let (b, k) = read_bool(words, k)?;
    Ok((RequestParams::CclsCall { position: p, callee: b }, k))
}

pub open spec fn ccls_inheritance_of(w: Seq<Seq<char>>, s: int) -> Result<(ParamsView, int), RequestParseError> {
    bind(position_at(w, s), |r_p: (KakounePosition, int)| bind(usize_at(w, r_p.1), |r_l: (usize, int)| bind(bool_at(w, r_l.1), |r_d: (bool, int)| Ok((ParamsView::CclsInheritance { position: r_p.0, levels: r_l.0, derived: r_d.0 }, r_d.1)))))
}

fn parse_ccls_inheritance(words: &Vec<String>, start: usize) -> (res: Result<(RequestParams, usize), RequestParseError>)
    ensures
        params_result_view(res) == ccls_inheritance_of(words_view(words@), start as int),
{
    let (p, k) = read_position(words, start)?;
    let (l, k) = read_usize(words, k)?;
    let (d, k) = read_bool(words, k)?;
    Ok((RequestParams::CclsInheritance { position: p, levels: l, derived: d }, k))
}

pub open spec fn ccls_member_of(w: Seq<Seq<char>>, s: int) -> Result<(ParamsView, int), RequestParseError> {
    bind(position_at(w, s), |r_p: (KakounePosition, int)| bind(u8_at(w, r_p.1), |r_m: (u8, int)| Ok((ParamsView::CclsMember { position: r_p.0, kind: r_m.0 }, r_m.1))))
}

fn parse_ccls_member(words: &Vec<String>, start: usize) -> (res: Result<(RequestParams, usize), RequestParseError>)
    ensures
        params_result_view(res) == ccls_member_of(words_view(words@), start as int),
{
    let (p, k) = read_position(words, start)?;
    let (m, k) = read_u8(words, k)?;
    Ok((RequestParams::CclsMember { position: p, kind: m }, k))
}

pub open spec fn ccls_navigate_of(w: Seq<Seq<char>>, s: int) -> Result<(ParamsView, int), RequestParseError> {
    bind(position_at(w, s), |r_p: (KakounePosition, int)| bind(word_at(w, r_p.1), |r_d: (Seq<char>, int)| Ok((ParamsView::CclsNavigate { position: r_p.0, direction: r_d.0 }, r_d.1))))
}

fn parse_ccls_navigate(words: &Vec<String>, start: usize) -> (res: Result<(RequestParams, usize), RequestParseError>)
    ensures
        params_result_view(res) == ccls_navigate_of(words_view(words@), start as int),
{
    let (p, k) = read_position(words, start)?;
    let (d, k) = read_word(words, k)?;
    Ok((RequestParams::CclsNavigate { position: p, direction: d }, k))
}

pub open spec fn apply_edit_of(w: Seq<Seq<char>>, s: int) -> Result<(ParamsView, int), RequestParseError> {
    bind(sync_at(w, s), |r_y: (bool, int)| bind(word_at(w, r_y.1), |r_e: (Seq<char>, int)| bind(trailer_at(w, r_e.1, r_y.0), |r_f: (Option<Seq<char>>, int)| Ok((ParamsView::ApplyEdit { edit: r_e.0, response_fifo: r_f.0 }, r_f.1)))))
}

fn parse_apply_edit(words: &Vec<String>, start: usize) -> (res: Result<(RequestParams, usize), RequestParseError>)
    ensures
        params_result_view(res) == apply_edit_of(words_view(words@), start as int),
{
    let (y, k) = read_sync(words, start)?;
    let (e, k) = read_word(words, k)?;
    let (f, k) = read_trailer(words, k, y)?;
    Ok((RequestParams::ApplyEdit { edit: e, response_fifo: f }, k))
}

pub open spec fn code_action_resolve_of(w: Seq<Seq<char>>, s: int) -> Result<(ParamsView, int), RequestParseError> {
    bind(word_at(w, s), |r_a: (Seq<char>, int)| Ok((ParamsView::CodeActionResolve { code_action: r_a.0 }, r_a.1)))
}

fn parse_code_action_resolve(words: &Vec<String>, start: usize) -> (res: Result<(RequestParams, usize), RequestParseError>)
    ensures
        params_result_view(res) == code_action_resolve_of(words_view(words@), start as int),
{
    let (a, k) = read_word(words, start)?;
    Ok((RequestParams::CodeActionResolve { code_action: a }, k))
}

pub open spec fn breadcrumbs_of(w: Seq<Seq<char>>, s: int) -> Result<(ParamsView, int), RequestParseError> {
    bind(u32_at(w, s), |r_l: (u32, int)| Ok((ParamsView::Breadcrumbs { position_line: r_l.0 }, r_l.1)))
}

fn parse_breadcrumbs(words: &Vec<String>, start: usize) -> (res: Result<(RequestParams, usize), RequestParseError>)
    ensures
        params_result_view(res) == breadcrumbs_of(words_view(words@), start as int),
{
    let (l, k) = read_u32(words, start)?;
    Ok((RequestParams::Breadcrumbs { position_line: l }, k))
}

pub open spec fn goto_symbol_of(w: Seq<Seq<char>>, s: int) -> Result<(ParamsView, int), RequestParseError> {
    bind(opt_word_at(w, s), |r_g: (Option<Seq<char>>, int)| Ok((ParamsView::GotoSymbol { goto_symbol: r_g.0 }, r_g.1)))
}

fn parse_goto_symbol(words: &Vec<String>, start: usize) -> (res: Result<(RequestParams, usize), RequestParseError>)
    ensures
        params_result_view(res) == goto_symbol_of(words_view(words@), start as int),
{
    let (g, k) = read_opt_word(words, start)?;
    Ok((RequestParams::GotoSymbol { goto_symbol: g }, k))
}

pub open spec fn object_of(w: Seq<Seq<char>>, s: int) -> Result<(ParamsView, int), RequestParseError> {
    bind(u32_at(w, s), |r_c: (u32, int)| bind(word_at(w, r_c.1), |r_m: (Seq<char>, int)| bind(usize_at(w, r_m.1), |r_n: (usize, int)| bind(words_at(w, r_n.1, r_n.0 as int), |r_sd: (Seq<Seq<char>>, int)| bind(usize_at(w, r_sd.1), |r_nk: (usize, int)| bind(words_at(w, r_nk.1, r_nk.0 as int), |r_sk: (Seq<Seq<char>>, int)| Ok((ParamsView::Object { count: r_c.0, mode: r_m.0, selections_desc: r_sd.0, symbol_kinds: r_sk.0 }, r_sk.1))))))))
}

fn parse_object(words: &Vec<String>, start: usize) -> (res: Result<(RequestParams, usize), RequestParseError>)
    ensures
        params_result_view(res) == object_of(words_view(words@), start as int),
{
    let (c, k) = read_u32(words, start)?;
    let (m, k) = read_word(words, k)?;
    let (n, k) = read_usize(words, k)?;
    let (sd, k) = read_words(words, k, n)?;
    let (nk, k) = read_usize(words, k)?;
    let (sk, k) = read_words(words, k, nk)?;
    Ok((RequestParams::Object { count: c, mode: m, selections_desc: sd, symbol_kinds: sk }, k))
}

pub open spec fn code_lens_of(w: Seq<Seq<char>>, s: int) -> Result<(ParamsView, int), RequestParseError> {
    bind(word_at(w, s), |r_a: (Seq<char>, int)| Ok((ParamsView::CodeLens { selection_desc: r_a.0 }, r_a.1)))
}

fn parse_code_lens(words: &Vec<String>, start: usize) -> (res: Result<(RequestParams, usize), RequestParseError>)
    ensures
        params_result_view(res) == code_lens_of(words_view(words@), start as int),
{
    let (a, k) = read_word(words, start)?;
    Ok((RequestParams::CodeLens { selection_desc: a }, k))
}

pub open spec fn completion_of(w: Seq<Seq<char>>, s: int) -> Result<(ParamsView, int), RequestParseError> {
    bind(position_at(w, s), |r_p: (KakounePosition, int)| bind(u32_at(w, r_p.1), |r_o: (u32, int)| Ok((ParamsView::Completion { position: r_p.0, offset: r_o.0 }, r_o.1))))
}

fn parse_completion(words: &Vec<String>, start: usize) -> (res: Result<(RequestParams, usize), RequestParseError>)
    ensures
        params_result_view(res) == completion_of(words_view(words@), start as int),
{
    let (p, k) = read_position(words, start)?;
    let (o, k) = read_u32(words, k)?;
    Ok((RequestParams::Completion { position: p, offset: o }, k))
}

pub open spec fn draft_of(w: Seq<Seq<char>>, s: int) -> Result<(ParamsView, int), RequestParseError> {
    bind(usize_at(w, s), |r_n: (usize, int)| Ok((ParamsView::Draft { line_count: r_n.0 }, r_n.1)))
}

fn parse_draft(words: &Vec<String>, start: usize) -> (res: Result<(RequestParams, usize), RequestParseError>)
    ensures
        params_result_view(res) == draft_of(words_view(words@), start as int),
{
    let (n, k) = read_usize(words, start)?;
    Ok((RequestParams::Draft { line_count: n }, k))
}

pub open spec fn formatting_of(w: Seq<Seq<char>>, s: int) -> Result<(ParamsView, int), RequestParseError> {
    bind(u32_at(w, s), |r_t: (u32, int)| bind(bool_at(w, r_t.1), |r_i: (bool, int)| bind(sync_at(w, r_i.1), |r_y: (bool, int)| bind(opt_word_at(w, r_y.1), |r_o: (Option<Seq<char>>, int)| bind(trailer_at(w, r_o.1, r_y.0), |r_f: (Option<Seq<char>>, int)| Ok((ParamsView::Formatting { tab_size: r_t.0, insert_spaces: r_i.0, server_override: r_o.0, response_fifo: r_f.0 }, r_f.1)))))))
}

fn parse_formatting(words: &Vec<String>, start: usize) -> (res: Result<(RequestParams, usize), RequestParseError>)
    ensures
        params_result_view(res) == formatting_of(words_view(words@), start as int),
{
    let (t, k) = read_u32(words, start)?;
    let (i, k) = read_bool(words, k)?;
    let (y, k) = read_sync(words, k)?;
    let (o, k) = read_opt_word(words, k)?;
    let (f, k) = read_trailer(words, k, y)?;
    Ok((RequestParams::Formatting { tab_size: t, insert_spaces: i, server_override: o, response_fifo: f }, k))
}

pub open spec fn hover_of(w: Seq<Seq<char>>, s: int) -> Result<(ParamsView, int), RequestParseError> {
    bind(word_at(w, s), |r_a: (Seq<char>, int)| bind(usize_at(w, r_a.1), |r_t: (usize, int)| bind(opt_word_at(w, r_t.1), |r_c: (Option<Seq<char>>, int)| Ok((ParamsView::Hover { selection_desc: r_a.0, tabstop: r_t.0, hover_client: r_c.0 }, r_c.1)))))
}

fn parse_hover(words: &Vec<String>, start: usize) -> (res: Result<(RequestParams, usize), RequestParseError>)
    ensures
        params_result_view(res) == hover_of(words_view(words@), start as int),
{
    let (a, k) = read_word(words, start)?;
    let (t, k) = read_usize(words, k)?;
    let (c, k) = read_opt_word(words, k)?;
    Ok((RequestParams::Hover { selection_desc: a, tabstop: t, hover_client: c }, k))
}

pub open spec fn inlay_hint_of(w: Seq<Seq<char>>, s: int) -> Result<(ParamsView, int), RequestParseError> {
    bind(u32_at(w, s), |r_n: (u32, int)| Ok((ParamsView::InlayHint { buf_line_count: r_n.0 }, r_n.1)))
}

fn parse_inlay_hint(words: &Vec<String>, start: usize) -> (res: Result<(RequestParams, usize), RequestParseError>)
    ensures
        params_result_view(res) == inlay_hint_of(words_view(words@), start as int),
{
    let (n, k) = read_u32(words, start)?;
    Ok((RequestParams::InlayHint { buf_line_count: n }, k))
}

pub open spec fn call_hierarchy_of(w: Seq<Seq<char>>, s: int) -> Result<(ParamsView, int), RequestParseError> {
    bind(position_at(w, s), |r_p: (KakounePosition, int)| bind(bool_at(w, r_p.1), |r_b: (bool, int)| Ok((ParamsView::CallHierarchy { position: r_p.0, incoming_or_outgoing: r_b.0 }, r_b.1))))
}

fn parse_call_hierarchy(words: &Vec<String>, start: usize) -> (res: Result<(RequestParams, usize), RequestParseError>)
    ensures
        params_result_view(res) == call_hierarchy_of(words_view(words@), start as int),
{
    let (p, k) = read_position(words, start)?;
    let (b, k) = read_bool(words, k)?;
    Ok((RequestParams::CallHierarchy { position: p, incoming_or_outgoing: b }, k))
}

pub open spec fn range_formatting_of(w: Seq<Seq<char>>, s: int) -> Result<(ParamsView, int), RequestParseError> {
    bind(u32_at(w, s), |r_t: (u32, int)| bind(bool_at(w, r_t.1), |r_i: (bool, int)| bind(usize_at(w, r_i.1), |r_n: (usize, int)| bind(words_at(w, r_n.1, r_n.0 as int), |r_r: (Seq<Seq<char>>, int)| bind(sync_at(w, r_r.1), |r_y: (bool, int)| bind(opt_word_at(w, r_y.1), |r_o: (Option<Seq<char>>, int)| bind(trailer_at(w, r_o.1, r_y.0), |r_f: (Option<Seq<char>>, int)| Ok((ParamsView::RangeFormatting { tab_size: r_t.0, insert_spaces: r_i.0, ranges: r_r.0, server_override: r_o.0, response_fifo: r_f.0 }, r_f.1)))))))))
}

fn parse_range_formatting(words: &Vec<String>, start: usize) -> (res: Result<(RequestParams, usize), RequestParseError>)
    ensures
        params_result_view(res) == range_formatting_of(words_view(words@), start as int),
{
    let (t, k) = read_u32(words, start)?;
    let (i, k) = read_bool(words, k)?;
    let (n, k) = read_usize(words, k)?;
    let (r, k) = read_words(words, k, n)?;
    let (y, k) = read_sync(words, k)?;
    let (o, k) = read_opt_word(words, k)?;
    let (f, k) = read_trailer(words, k, y)?;
    Ok((RequestParams::RangeFormatting { tab_size: t, insert_spaces: i, ranges: r, server_override: o, response_fifo: f }, k))
}

pub open spec fn rename_of(w: Seq<Seq<char>>, s: int) -> Result<(ParamsView, int), RequestParseError> {
    bind(position_at(w, s), |r_p: (KakounePosition, int)| bind(word_at(w, r_p.1), |r_a: (Seq<char>, int)| Ok((ParamsView::Rename { position: r_p.0, new_name: r_a.0 }, r_a.1))))
}

fn parse_rename(words: &Vec<String>, start: usize) -> (res: Result<(RequestParams, usize), RequestParseError>)
    ensures
        params_result_view(res) == rename_of(words_view(words@), start as int),
{
    let (p, k) = read_position(words, start)?;
    let (a, k) = read_word(words, k)?;
    Ok((RequestParams::Rename { position: p, new_name: a }, k))
}

pub open spec fn selection_range_of(w: Seq<Seq<char>>, s: int) -> Result<(ParamsView, int), RequestParseError> {
    bind(position_at(w, s), |r_p: (KakounePosition, int)| bind(usize_at(w, r_p.1), |r_n: (usize, int)| bind(words_at(w, r_n.1, r_n.0 as int), |r_sd: (Seq<Seq<char>>, int)| Ok((ParamsView::SelectionRange { position: r_p.0, selections_desc: r_sd.0 }, r_sd.1)))))
}

fn parse_selection_range(words: &Vec<String>, start: usize) -> (res: Result<(RequestParams, usize), RequestParseError>)
    ensures
        params_result_view(res) == selection_range_of(words_view(words@), start as int),
{
    let (p, k) = read_position(words, start)?;
    let (n, k) = read_usize(words, k)?;
    let (sd, k) = read_words(words, k, n)?;
    Ok((RequestParams::SelectionRange { position: p, selections_desc: sd }, k))
}

pub open spec fn progress_cancel_of(w: Seq<Seq<char>>, s: int) -> Result<(ParamsView, int), RequestParseError> {
    bind(word_at(w, s), |r_a: (Seq<char>, int)| Ok((ParamsView::WorkDoneProgressCancel { token: r_a.0 }, r_a.1)))
}

fn parse_progress_cancel(words: &Vec<String>, start: usize) -> (res: Result<(RequestParams, usize), RequestParseError>)
    ensures
        params_result_view(res) == progress_cancel_of(words_view(words@), start as int),
{
    let (a, k) = read_word(words, start)?;
    Ok((RequestParams::WorkDoneProgressCancel { token: a }, k))
}

pub open spec fn execute_command_of(w: Seq<Seq<char>>, s: int) -> Result<(ParamsView, int), RequestParseError> {
    bind(sync_at(w, s), |r_y: (bool, int)| bind(word_at(w, r_y.1), |r_c: (Seq<char>, int)| bind(word_at(w, r_c.1), |r_a: (Seq<char>, int)| bind(trailer_at(w, r_a.1, r_y.0), |r_f: (Option<Seq<char>>, int)| Ok((ParamsView::ExecuteCommand { command: r_c.0, arguments: r_a.0, response_fifo: r_f.0 }, r_f.1))))))
}

fn parse_execute_command(words: &Vec<String>, start: usize) -> (res: Result<(RequestParams, usize), RequestParseError>)
    ensures
        params_result_view(res) == execute_command_of(words_view(words@), start as int),
{
    let (y, k) = read_sync(words, start)?;
    let (c, k) = read_word(words, k)?;
    let (a, k) = read_word(words, k)?;
    let (f, k) = read_trailer(words, k, y)?;
    Ok((RequestParams::ExecuteCommand { command: c, arguments: a, response_fifo: f }, k))
}

/// The resolution of a completion item; none to resolve for index -1.
pub open spec fn completion_item_resolve_of(w: Seq<Seq<char>>, s: int) -> Result<(ParamsView, int), RequestParseError> {
    bind(i32_at(w, s), |r_t: (i32, int)| bind(isize_at(w, r_t.1), |r_i: (isize, int)| bind(bool_at(w, r_i.1), |r_p: (bool, int)|
        Ok((if r_i.0 == -1 { ParamsView::Ignored } else {
            ParamsView::CompletionItemResolve { timestamp: r_t.0, index: r_i.0, pager_active: r_p.0 }
        }, r_p.1)))))
}

fn parse_completion_item_resolve(words: &Vec<String>, start: usize) -> (res: Result<(RequestParams, usize), RequestParseError>)
    ensures
        params_result_view(res) == completion_item_resolve_of(words_view(words@), start as int),
{
    let (t, k) = read_i32(words, start)?;
    let (i, k) = read_isize(words, k)?;
    let (p, k) = read_bool(words, k)?;
    if i == -1 {
        Ok((RequestParams::Ignored, k))
    } else {
        Ok((RequestParams::CompletionItemResolve { timestamp: t, index: i, pager_active: p }, k))
    }
}

/// One of two keywords at `k`: `true` for the first, `false` for the second.
pub open spec fn keyword_at(w: Seq<Seq<char>>, k: int, yes: Seq<char>, no: Seq<char>) -> Result<(bool, int), RequestParseError> {
    bind(word_at(w, k), |r: (Seq<char>, int)| if r.0 == yes {
        Ok((true, r.1))
    } else if r.0 == no {
        Ok((false, r.1))
    } else {
        Err(RequestParseError::BadWord { index: k as usize })
    })
}

fn read_keyword(words: &Vec<String>, k: usize, yes: &str, no: &str) -> (res: Result<(bool, usize), RequestParseError>)
    ensures
        match res {
            Ok((b, n)) => keyword_at(words_view(words@), k as int, yes@, no@) == Ok::<(bool, int), RequestParseError>((b, n as int)),
            Err(e) => keyword_at(words_view(words@), k as int, yes@, no@) == Err::<(bool, int), RequestParseError>(e),
        },
{
    let (s, n) = read_word(words, k)?;
    if str_eq(s.as_str(), yes) {
        Ok((true, n))
    } else if str_eq(s.as_str(), no) {
        Ok((false, n))
    } else {
        Err(RequestParseError::BadWord { index: k })
    }
}

/// The next or previous symbol: the number of symbol kinds, the position,
/// `next` or `previous`, `hover` or `goto`, then the kinds.
pub open spec fn next_or_prev_of(w: Seq<Seq<char>>, s: int) -> Result<(ParamsView, int), RequestParseError> {
    bind(usize_at(w, s), |r_n: (usize, int)| bind(position_at(w, r_n.1), |r_p: (KakounePosition, int)|
        bind(keyword_at(w, r_p.1, "next"@, "previous"@), |r_s: (bool, int)| bind(keyword_at(w, r_s.1, "hover"@, "goto"@), |r_h: (bool, int)|
        bind(words_at(w, r_h.1, r_n.0 as int), |r_k: (Seq<Seq<char>>, int)|
        Ok((ParamsView::NextOrPrevSymbol { position: r_p.0, search_next: r_s.0, hover: r_h.0, symbol_kinds: r_k.0 }, r_k.1)))))))
}

fn parse_next_or_prev(words: &Vec<String>, start: usize) -> (res: Result<(RequestParams, usize), RequestParseError>)
    ensures
        params_result_view(res) == next_or_prev_of(words_view(words@), start as int),
{
    let (n, k) = read_usize(words, start)?;
    let (p, k) = read_position(words, k)?;
    let (s, k) = read_keyword(words, k, "next", "previous")?;
    let (h, k) = read_keyword(words, k, "hover", "goto")?;
    let (kinds, k) = read_words(words, k, n)?;
    Ok((RequestParams::NextOrPrevSymbol { position: p, search_next: s, hover: h, symbol_kinds: kinds }, k))
}

/// A change of the debug option: `lsp_debug=true` or `lsp_debug=false`.
pub open spec fn debug_option_of(w: Seq<Seq<char>>, s: int) -> Result<(ParamsView, int), RequestParseError> {
    bind(keyword_at(w, s, "lsp_debug=true"@, "lsp_debug=false"@), |r: (bool, int)| Ok((ParamsView::DebugOption { debug: r.0 }, r.1)))
}

fn parse_debug_option(words: &Vec<String>, start: usize) -> (res: Result<(RequestParams, usize), RequestParseError>)
    ensures
        params_result_view(res) == debug_option_of(words_view(words@), start as int),
{
    let (d, k) = read_keyword(words, start, "lsp_debug=true", "lsp_debug=false")?;
    Ok((RequestParams::DebugOption { debug: d }, k))
}

/// The filter of a code-action request with `n` kinds, at `k`: `only` and
/// the kinds (no filter for no kinds), or `matching` and a pattern.
pub open spec fn filter_at(w: Seq<Seq<char>>, k: int, n: int) -> Result<(Option<FilterView>, int), RequestParseError> {
    bind(word_at(w, k), |r: (Seq<char>, int)| if r.0 == "only"@ {
        if n != 0 {
            bind(words_at(w, r.1, n), |v: (Seq<Seq<char>>, int)| Ok((Some(FilterView::ByKind(v.0)), v.1)))
        } else {
            Ok((None, r.1))
        }
    } else if r.0 == "matching"@ {
        bind(word_at(w, r.1), |v: (Seq<char>, int)| Ok((Some(FilterView::ByRegex(v.0)), v.1)))
    } else {
        Err(RequestParseError::BadWord { index: k as usize })
    })
}

fn read_filter(words: &Vec<String>, k: usize, n: usize) -> (res: Result<(Option<CodeActionFilter>, usize), RequestParseError>)
    ensures
        match res {
            Ok((f, next)) => filter_at(words_view(words@), k as int, n as int) == Ok::<(Option<FilterView>, int), RequestParseError>((filter_view(f), next as int)),
            Err(e) => filter_at(words_view(words@), k as int, n as int) == Err::<(Option<FilterView>, int), RequestParseError>(e),
        },
{
    let (s, next) = read_word(words, k)?;
    if str_eq(s.as_str(), "only") {
        if n != 0 {
            let (kinds, next) = read_words(words, next, n)?;
            Ok((Some(CodeActionFilter::ByKind(kinds)), next))
        } else {
            Ok((None, next))
        }
    } else if str_eq(s.as_str(), "matching") {
        let (p, next) = read_word(words, next)?;
        Ok((Some(CodeActionFilter::ByRegex(p)), next))
    } else {
        Err(RequestParseError::BadWord { index: k })
    }
}

/// Code actions: the selection, the number of kinds, whether to perform the
/// action, whether the editor waits, the filter, then the fifo.
pub open spec fn code_actions_of(w: Seq<Seq<char>>, s: int) -> Result<(ParamsView, int), RequestParseError> {
    bind(word_at(w, s), |r_a: (Seq<char>, int)| bind(usize_at(w, r_a.1), |r_n: (usize, int)|
        bind(bool_at(w, r_n.1), |r_p: (bool, int)| bind(sync_at(w, r_p.1), |r_y: (bool, int)|
        bind(filter_at(w, r_y.1, r_n.0 as int), |r_f: (Option<FilterView>, int)| bind(trailer_at(w, r_f.1, r_y.0), |r_t: (Option<Seq<char>>, int)|
        Ok((ParamsView::CodeActions { selection_desc: r_a.0, perform_code_action: r_p.0, filters: r_f.0, response_fifo: r_t.0 }, r_t.1))))))))
}

fn parse_code_actions(words: &Vec<String>, start: usize) -> (res: Result<(RequestParams, usize), RequestParseError>)
    ensures
        params_result_view(res) == code_actions_of(words_view(words@), start as int),
{
    let (a, k) = read_word(words, start)?;
    let (n, k) = read_usize(words, k)?;
    let (p, k) = read_bool(words, k)?;
    let (y, k) = read_sync(words, k)?;
    let (f, k) = read_filter(words, k, n)?;
    let (t, k) = read_trailer(words, k, y)?;
    Ok((RequestParams::CodeActions { selection_desc: a, perform_code_action: p, filters: f, response_fifo: t }, k))
}

/// The answer to a message request: its id (JSON) and the item chosen
/// (TOML; none when empty).
pub open spec fn respond_of(w: Seq<Seq<char>>, s: int) -> Result<(ParamsView, int), RequestParseError> {
    bind(word_at(w, s), |r_a: (Seq<char>, int)| match json_request_id(r_a.0) {
        None => Err(RequestParseError::BadJson { index: s as usize }),
        Some(id) => bind(opt_word_at(w, r_a.1), |r_b: (Option<Seq<char>>, int)| match r_b.0 {
            None => Ok((ParamsView::MessageRespond { message_request_id: id, item: None }, r_b.1)),
            Some(t) => match toml_value_of(t) {
                None => Err(RequestParseError::BadToml { index: r_a.1 as usize }),
                Some(v) => Ok((ParamsView::MessageRespond { message_request_id: id, item: Some(v) }, r_b.1)),
            },
        }),
    })
}

fn parse_respond(words: &Vec<String>, start: usize) -> (res: Result<(RequestParams, usize), RequestParseError>)
    ensures
        params_result_view(res) == respond_of(words_view(words@), start as int),
{
    let (a, k1) = read_word(words, start)?;
    let id = match parse_request_id(a.as_str()) {
        Some(id) => id,
        None => return Err(RequestParseError::BadJson { index: start }),
    };
    let (b, k) = read_opt_word(words, k1)?;
    match b {
        None => Ok((RequestParams::MessageRespond { message_request_id: id, item: None }, k)),
        Some(t) => match parse_toml_value(t.as_str()) {
            None => Err(RequestParseError::BadToml { index: k1 }),
            Some(v) => Ok((RequestParams::MessageRespond { message_request_id: id, item: Some(v) }, k)),
        },
    }
}

/// A change of configuration: the legacy configuration text, then the
/// legacy server configuration up to `map-end`.
pub open spec fn did_change_configuration_of(w: Seq<Seq<char>>, s: int) -> Result<(ParamsView, int), RequestParseError> {
    bind(word_at(w, s), |r_a: (Seq<char>, int)| match map_end(w, r_a.1) {
        None => Err(RequestParseError::Incomplete),
        Some(m) => Ok((ParamsView::DidChangeConfiguration { config: r_a.0, server_configuration: w.subrange(r_a.1, m) }, m + 1)),
    })
}

fn parse_did_change_configuration(words: &Vec<String>, start: usize) -> (res: Result<(RequestParams, usize), RequestParseError>)
    ensures
        params_result_view(res) == did_change_configuration_of(words_view(words@), start as int),
{
    let ghost wv = words_view(words@);
    let (a, k0) = read_word(words, start)?;
    proof {
        reveal_strlit("map-end");
    }
    let mut out: Vec<String> = Vec::new();
    let mut k: usize = k0;
    while k < words.len() && !str_eq(words[k].as_str(), "map-end")
        invariant
            k0 <= k <= words.len(),
            wv == words_view(words@),
            map_end(wv, k0 as int) == map_end(wv, k as int),
            words_view(out@) == wv.subrange(k0 as int, k as int),
        decreases words.len() - k,
    {
        proof {
            assert(wv[k as int] == words@[k as int]@);
            assert(map_end(wv, k as int) == map_end(wv, k + 1));
        }
        let w = copy_word(words[k].as_str());
        let ghost before = out@;
        out.push(w);
        proof {
            assert(words_view(out@) =~= words_view(before).push(w@));
            assert(words_view(out@) =~= wv.subrange(k0 as int, k + 1));
        }
        k = k + 1;
    }
    if k >= words.len() {
        return Err(RequestParseError::Incomplete);
    }
    proof {
        assert(wv[k as int] == words@[k as int]@);
        assert(map_end(wv, k as int) == Some(k as int));
    }
    Ok((RequestParams::DidChangeConfiguration { config: a, server_configuration: out }, k + 1))
}

/// A workspace symbol search: the buffer and its version, then the query;
/// a search for nothing is dropped.
pub open spec fn workspace_symbol_of(w: Seq<Seq<char>>, s: int) -> Result<(ParamsView, int), RequestParseError> {
    bind(word_at(w, s), |r_b: (Seq<char>, int)| bind(i32_at(w, r_b.1), |r_v: (i32, int)| bind(word_at(w, r_v.1), |r_q: (Seq<char>, int)|
        Ok((if r_q.0.len() == 0 { ParamsView::Ignored } else {
            ParamsView::WorkspaceSymbol { buffile: r_b.0, version: r_v.0, query: r_q.0 }
        }, r_q.1)))))
}

fn parse_workspace_symbol(words: &Vec<String>, start: usize) -> (res: Result<(RequestParams, usize), RequestParseError>)
    ensures
        params_result_view(res) == workspace_symbol_of(words_view(words@), start as int),
{
    let (b, k) = read_word(words, start)?;
    let (v, k) = read_i32(words, k)?;
    let (q, k) = read_word(words, k)?;
    if q.as_str().unicode_len() == 0 {
        Ok((RequestParams::Ignored, k))
    } else {
        Ok((RequestParams::WorkspaceSymbol { buffile: b, version: v, query: q }, k))
    }
}

/// The parameters of a request for `method`, read from the words from
/// `start` on, with the index after them. Each method reads its own words in
/// turn; a word that does not read stops the reading, and an unknown method
/// has no parameters to read.
pub open spec fn request_params_of(method: Seq<char>, w: Seq<Seq<char>>, start: int) -> Result<(ParamsView, int), RequestParseError> {
    if method == "capabilities"@ || method == "eclipse.jdt.ls/organizeImports"@ || method == "kakoune/exit"@ || method == "textDocument/build"@ || method == "textDocument/codeLens"@ || method == "textDocument/diagnostics"@ || method == "textDocument/documentSymbol"@ || method == "textDocument/didClose"@ || method == "textDocument/didSave"@ || method == "textDocument/semanticTokens/full"@ || method == "textDocument/switchSourceHeader"@ || method == "window/showMessageRequest/showNext"@ {
        Ok((ParamsView::NoParams, start))
    } else if method == "$ccls/vars"@ || method == "rust-analyzer/expandMacro"@ || method == "textDocument/declaration"@ || method == "textDocument/implementation"@ || method == "textDocument/typeDefinition"@ || method == "textDocument/forwardSearch"@ || method == "textDocument/signatureHelp"@ {
        position_params_of(w, start)
    } else if method == "textDocument/definition"@ || method == "textDocument/documentHighlight"@ || method == "textDocument/references"@ {
        word_regex_position_of(w, start)
    } else if method == "textDocument/didChange"@ || method == "textDocument/didOpen"@ {
        draft_of(w, start)
    } else if method == "$ccls/call"@ {
        ccls_call_of(w, start)
    } else if method == "$ccls/inheritance"@ {
        ccls_inheritance_of(w, start)
    } else if method == "$ccls/member"@ {
        ccls_member_of(w, start)
    } else if method == "$ccls/navigate"@ {
        ccls_navigate_of(w, start)
    } else if method == "apply-workspace-edit"@ {
        apply_edit_of(w, start)
    } else if method == "codeAction/resolve"@ {
        code_action_resolve_of(w, start)
    } else if method == "completionItem/resolve"@ {
        completion_item_resolve_of(w, start)
    } else if method == "kakoune/breadcrumbs"@ {
        breadcrumbs_of(w, start)
    } else if method == "kakoune/goto-document-symbol"@ {
        goto_symbol_of(w, start)
    } else if method == "kakoune/next-or-previous-symbol"@ {
        next_or_prev_of(w, start)
    } else if method == "kakoune/object"@ {
        object_of(w, start)
    } else if method == "kakoune/textDocument/codeLens"@ {
        code_lens_of(w, start)
    } else if method == "kakoune/did-change-option"@ {
        debug_option_of(w, start)
    } else if method == "textDocument/codeAction"@ {
        code_actions_of(w, start)
    } else if method == "textDocument/completion"@ {
        completion_of(w, start)
    } else if method == "textDocument/formatting"@ {
        formatting_of(w, start)
    } else if method == "textDocument/hover"@ {
        hover_of(w, start)
    } else if method == "textDocument/inlayHint"@ {
        inlay_hint_of(w, start)
    } else if method == "textDocument/prepareCallHierarchy"@ {
        call_hierarchy_of(w, start)
    } else if method == "textDocument/rangeFormatting"@ {
        range_formatting_of(w, start)
    } else if method == "textDocument/rename"@ {
        rename_of(w, start)
    } else if method == "textDocument/selectionRange"@ {
        selection_range_of(w, start)
    } else if method == "window/showMessageRequest/respond"@ {
        respond_of(w, start)
    } else if method == "window/workDoneProgress/cancel"@ {
        progress_cancel_of(w, start)
    } else if method == "workspace/didChangeConfiguration"@ {
        did_change_configuration_of(w, start)
    } else if method == "workspace/executeCommand"@ {
        execute_command_of(w, start)
    } else if method == "workspace/symbol"@ {
        workspace_symbol_of(w, start)
    } else {
        Err(RequestParseError::UnknownMethod)
    }
}

/// Reads the parameters of a request; see `request_params_of`.
pub fn parse_request_params(method: &str, words: &Vec<String>, start: usize) -> (res: Result<(RequestParams, usize), RequestParseError>)
    ensures
        params_result_view(res) == request_params_of(method@, words_view(words@), start as int),
{
    if str_eq(method, "capabilities") || str_eq(method, "eclipse.jdt.ls/organizeImports") || str_eq(method, "kakoune/exit") || str_eq(method, "textDocument/build") || str_eq(method, "textDocument/codeLens") || str_eq(method, "textDocument/diagnostics") || str_eq(method, "textDocument/documentSymbol") || str_eq(method, "textDocument/didClose") || str_eq(method, "textDocument/didSave") || str_eq(method, "textDocument/semanticTokens/full") || str_eq(method, "textDocument/switchSourceHeader") || str_eq(method, "window/showMessageRequest/showNext") {
        Ok((RequestParams::NoParams, start))
    } else if str_eq(method, "$ccls/vars") || str_eq(method, "rust-analyzer/expandMacro") || str_eq(method, "textDocument/declaration") || str_eq(method, "textDocument/implementation") || str_eq(method, "textDocument/typeDefinition") || str_eq(method, "textDocument/forwardSearch") || str_eq(method, "textDocument/signatureHelp") {
        parse_position_params(words, start)
    } else if str_eq(method, "textDocument/definition") || str_eq(method, "textDocument/documentHighlight") || str_eq(method, "textDocument/references") {
        parse_word_regex_position(words, start)
    } else if str_eq(method, "textDocument/didChange") || str_eq(method, "textDocument/didOpen") {
        parse_draft(words, start)
    } else if str_eq(method, "$ccls/call") {
        parse_ccls_call(words, start)
    } else if str_eq(method, "$ccls/inheritance") {
        parse_ccls_inheritance(words, start)
    } else if str_eq(method, "$ccls/member") {
        parse_ccls_member(words, start)
    } else if str_eq(method, "$ccls/navigate") {
        parse_ccls_navigate(words, start)
    } else if str_eq(method, "apply-workspace-edit") {
        parse_apply_edit(words, start)
    } else if str_eq(method, "codeAction/resolve") {
        parse_code_action_resolve(words, start)
    } else if str_eq(method, "completionItem/resolve") {
        parse_completion_item_resolve(words, start)
    } else if str_eq(method, "kakoune/breadcrumbs") {
        parse_breadcrumbs(words, start)
    } else if str_eq(method, "kakoune/goto-document-symbol") {
        parse_goto_symbol(words, start)
    } else if str_eq(method, "kakoune/next-or-previous-symbol") {
        parse_next_or_prev(words, start)
    } else if str_eq(method, "kakoune/object") {
        parse_object(words, start)
    } else if str_eq(method, "kakoune/textDocument/codeLens") {
        parse_code_lens(words, start)
    } else if str_eq(method, "kakoune/did-change-option") {
        parse_debug_option(words, start)
    } else if str_eq(method, "textDocument/codeAction") {
        parse_code_actions(words, start)
    } else if str_eq(method, "textDocument/completion") {
        parse_completion(words, start)
    } else if str_eq(method, "textDocument/formatting") {
        parse_formatting(words, start)
    } else if str_eq(method, "textDocument/hover") {
        parse_hover(words, start)
    } else if str_eq(method, "textDocument/inlayHint") {
        parse_inlay_hint(words, start)
    } else if str_eq(method, "textDocument/prepareCallHierarchy") {
        parse_call_hierarchy(words, start)
    } else if str_eq(method, "textDocument/rangeFormatting") {
        parse_range_formatting(words, start)
    } else if str_eq(method, "textDocument/rename") {
        parse_rename(words, start)
    } else if str_eq(method, "textDocument/selectionRange") {
        parse_selection_range(words, start)
    } else if str_eq(method, "window/showMessageRequest/respond") {
        parse_respond(words, start)
    } else if str_eq(method, "window/workDoneProgress/cancel") {
        parse_progress_cancel(words, start)
    } else if str_eq(method, "workspace/didChangeConfiguration") {
        parse_did_change_configuration(words, start)
    } else if str_eq(method, "workspace/executeCommand") {
        parse_execute_command(words, start)
    } else if str_eq(method, "workspace/symbol") {
        parse_workspace_symbol(words, start)
    } else {
        Err(RequestParseError::UnknownMethod)
    }
}

} // verus!
