//! Requests particular to rust-analyzer: macro expansion, running a single
//! test or binary, and the cursor after a source change.

use vstd::prelude::*;
use ropey::Rope;
use crate::position::{lsp_position_to_kakoune, position_defined, position_to_kakoune};
use crate::rope::rope_lines;
use crate::strings::{decimal, push_char, push_decimal, push_str, str_eq};
use crate::text_edit::join_spaced;
use crate::types::{KakounePosition, OffsetEncoding, Position};
use crate::util::{editor_escape, editor_escape_spec, editor_quote, editor_quote_spec};

verus! {

/// The info box that shows a macro's expansion.
pub open spec fn expand_macro_text(name: Seq<char>, expansion: Seq<char>) -> Seq<char> {
    "info 'expansion of "@ + editor_escape_spec(name) + "!\n\n"@ + editor_escape_spec(expansion) + seq!['\'']
}

/// The info box that shows a macro's expansion; see `expand_macro_text`.
pub fn editor_expand_macro(name: &str, expansion: &str) -> (res: String)
    ensures
        res@ == expand_macro_text(name@, expansion@),
{
    let mut out = String::new();
    push_str(&mut out, "info 'expansion of ");
    let n = editor_escape(name);
    push_str(&mut out, n.as_str());
    push_str(&mut out, "!\n\n");
    let e = editor_escape(expansion);
    push_str(&mut out, e.as_str());
    push_char(&mut out, '\'');
    assert(out@ =~= expand_macro_text(name@, expansion@));
    out
}

/// The command line that runs a single test or binary with cargo: `cargo`,
/// the cargo arguments, the extra ones, `--`, and the executable's.
pub open spec fn run_single_args(cargo_args: Seq<Seq<char>>, extra_args: Seq<Seq<char>>, executable_args: Seq<Seq<char>>) -> Seq<Seq<char>> {
    seq!["cargo"@] + cargo_args + extra_args + seq!["--"@] + executable_args
}

/// The command that puts the command line, each argument quoted, on the
/// prompt of a client; none for a kind other than `cargo`.
pub open spec fn run_single_text(
    kind: Seq<char>,
    cargo_args: Seq<Seq<char>>,
    extra_args: Seq<Seq<char>>,
    executable_args: Seq<Seq<char>>,
    client: Seq<char>,
) -> Option<Seq<char>> {
    if kind != "cargo"@ {
        None
    } else {
        let words = run_single_args(cargo_args, extra_args, executable_args).map_values(|a: Seq<char>| editor_quote_spec(a));
        Some("set-register : "@ + editor_quote_spec(join_spaced(words)) + "; execute-keys -client "@ + client + " :<c-p>"@)
    }
}

proof fn lemma_join_spaced_push(parts: Seq<Seq<char>>, x: Seq<char>)
    ensures
        join_spaced(parts.push(x)) == if parts.len() == 0 { x } else { join_spaced(parts) + seq![' '] + x },
{
    assert(parts.push(x).drop_last() =~= parts);
}

/// Appends a quoted word, after a blank unless it is the first.
fn push_word(out: &mut String, words: Ghost<Seq<Seq<char>>>, first: bool, w: &str)
    requires
        old(out)@ == join_spaced(words@),
        first == (words@.len() == 0),
    ensures
        final(out)@ == join_spaced(words@.push(editor_quote_spec(w@))),
{
    proof {
        lemma_join_spaced_push(words@, editor_quote_spec(w@));
    }
    if !first {
        push_char(out, ' ');
    } else {
        assert(old(out)@ == Seq::<char>::empty());
    }
    let q = editor_quote(w);
    push_str(out, q.as_str());
}

/// The strings as values.
pub open spec fn views(v: Seq<String>) -> Seq<Seq<char>> {
    v.map_values(|s: String| s@)
}

/// Appends quoted words, each after a blank unless it is the first.
fn push_words(out: &mut String, words: Ghost<Seq<Seq<char>>>, more: &Vec<String>)
    requires
        old(out)@ == join_spaced(words@),
        words@.len() > 0,
    ensures
        final(out)@ == join_spaced(words@ + views(more@).map_values(|a: Seq<char>| editor_quote_spec(a))),
{
    let mut k: usize = 0;
    while k < more.len()
        invariant
            k <= more.len(),
            words@.len() > 0,
            out@ == join_spaced(words@ + views(more@.take(k as int)).map_values(|a: Seq<char>| editor_quote_spec(a))),
        decreases more.len() - k,
    {
        let ghost done = words@ + views(more@.take(k as int)).map_values(|a: Seq<char>| editor_quote_spec(a));
        push_word(out, Ghost(done), false, more[k].as_str());
        proof {
            assert(words@ + views(more@.take(k + 1)).map_values(|a: Seq<char>| editor_quote_spec(a)) =~= done.push(
                editor_quote_spec(more@[k as int]@),
            ));
        }
        k = k + 1;
    }
    assert(more@.take(k as int) =~= more@);
}

/// The command that offers to run a single test or binary; see
/// `run_single_text`.
pub fn run_single(
    kind: &str,
    cargo_args: &Vec<String>,
    cargo_extra_args: &Vec<String>,
    executable_args: &Vec<String>,
    client: &str,
) -> (res: Option<String>)
    ensures
        match run_single_text(kind@, views(cargo_args@), views(cargo_extra_args@), views(executable_args@), client@) {
            Some(t) => res matches Some(r) && r@ == t,
            None => res is None,
        },
{
    if !str_eq(kind, "cargo") {
        return None;
    }
    let mut line = String::new();
    push_word(&mut line, Ghost(Seq::empty()), true, "cargo");
    let ghost w1 = seq![editor_quote_spec("cargo"@)];
    assert(Seq::<Seq<char>>::empty().push(editor_quote_spec("cargo"@)) =~= w1);
    push_words(&mut line, Ghost(w1), cargo_args);
    let ghost w2 = w1 + views(cargo_args@).map_values(|a: Seq<char>| editor_quote_spec(a));
    push_words(&mut line, Ghost(w2), cargo_extra_args);
    let ghost w3 = w2 + views(cargo_extra_args@).map_values(|a: Seq<char>| editor_quote_spec(a));
    push_word(&mut line, Ghost(w3), false, "--");
    let ghost w4 = w3.push(editor_quote_spec("--"@));
    push_words(&mut line, Ghost(w4), executable_args);
    let ghost w5 = w4 + views(executable_args@).map_values(|a: Seq<char>| editor_quote_spec(a));
    assert(w5 =~= run_single_args(views(cargo_args@), views(cargo_extra_args@), views(executable_args@)).map_values(
        |a: Seq<char>| editor_quote_spec(a),
    ));
    let mut out = String::new();
    push_str(&mut out, "set-register : ");
    let ql = editor_quote(line.as_str());
    push_str(&mut out, ql.as_str());
    push_str(&mut out, "; execute-keys -client ");
    push_str(&mut out, client);
    push_str(&mut out, " :<c-p>");
    Some(out)
}

/// Where the cursor goes after a source change: the position in Kakoune's
/// terms when the file is open (its text known), else the position one-based.
pub open spec fn source_change_cursor(position: Position, text: Option<Rope>, enc: OffsetEncoding) -> KakounePosition {
    match text {
        Some(t) => position_to_kakoune(position, rope_lines(t), enc),
        None => KakounePosition { line: (position.line + 1) as u32, column: (position.character + 1) as u32 },
    }
}

/// The command that moves a client's jump client to the cursor after a
/// source change: the file opened at the line and the (zero-based) column.
pub open spec fn source_change_jump_text(client: Seq<char>, buffile: Seq<char>, cursor: KakounePosition) -> Seq<char> {
    "evaluate-commands -client "@ + editor_quote_spec(client)
        + " -verbatim -- evaluate-commands -try-client %opt{jumpclient} -verbatim -- edit -existing "@ + editor_quote_spec(
        buffile,
    ) + seq![' '] + decimal(cursor.line as nat) + seq![' '] + decimal((cursor.column - 1) as nat)
}

/// The command that moves the cursor after a source change; see
/// `source_change_cursor` and `source_change_jump_text`.
pub fn source_change_jump(client: &str, buffile: &str, position: Position, text: Option<&Rope>, offset_encoding: OffsetEncoding) -> (res: String)
    requires
        match text {
            Some(t) => position_defined(position, rope_lines(*t), offset_encoding),
            None => position.line < u32::MAX && position.character < u32::MAX,
        },
    ensures
        res@ == source_change_jump_text(
            client@,
            buffile@,
            source_change_cursor(position, match text { Some(t) => Some(*t), None => None }, offset_encoding),
        ),
{
    let cursor = match text {
        Some(t) => lsp_position_to_kakoune(&position, t, offset_encoding),
        None => KakounePosition { line: position.line + 1, column: position.character + 1 },
    };
    let mut out = String::new();
    push_str(&mut out, "evaluate-commands -client ");
    let qc = editor_quote(client);
    push_str(&mut out, qc.as_str());
    push_str(&mut out, " -verbatim -- evaluate-commands -try-client %opt{jumpclient} -verbatim -- edit -existing ");
    let qb = editor_quote(buffile);
    push_str(&mut out, qb.as_str());
    push_char(&mut out, ' ');
    push_decimal(&mut out, cursor.line as u64);
    push_char(&mut out, ' ');
    push_decimal(&mut out, cursor.column as u64 - 1);
    out
}

} // verus!
