//! Semantic tokens: where each token is, and the face it gets.

use vstd::prelude::*;
use crate::capabilities::{join_strs, join_with, strings_view, SemanticLegend};
use crate::diagnostics::{int_decimal, push_int};
use crate::position::{lsp_range_convertible, lsp_range_to_kakoune, range_defined, range_to_kakoune};
use crate::rope::rope_lines;
use ropey::Rope;
use crate::strings::{push_char, push_str, str_eq};
use crate::types::{kakoune_range_text, OffsetEncoding, Position, Range, SemanticTokenFace};
use crate::util::{editor_quote, editor_quote_spec};

verus! {

/// A semantic token as a server sends it: relative to the token before it.
#[derive(Clone, Copy, Debug, PartialEq, Eq, Structural)]
pub struct SemanticToken {
    /// Lines from the previous token's line.
    pub delta_line: u32,
    /// Characters from the previous token's start when on the same line,
    /// else from the start of the line.
    pub delta_start: u32,
    pub length: u32,
    /// The token's type, by its index in the legend.
    pub token_type: u32,
    /// The token's modifiers, bit `i` for the legend's modifier `i`.
    pub token_modifiers_bitset: u32,
}

/// Where each token starts: its line and character.
pub open spec fn token_starts(tokens: Seq<SemanticToken>) -> Seq<(int, int)>
    decreases tokens.len(),
{
    if tokens.len() == 0 {
        Seq::empty()
    } else {
        let prev = token_starts(tokens.drop_last());
        let last: (int, int) = if prev.len() == 0 { (0, 0) } else { prev.last() };
        let t = tokens.last();
        prev.push(if t.delta_line != 0 {
            (last.0 + t.delta_line, t.delta_start as int)
        } else {
            (last.0, last.1 + t.delta_start)
        })
    }
}

proof fn lemma_token_starts_len(tokens: Seq<SemanticToken>)
    ensures
        token_starts(tokens).len() == tokens.len(),
    decreases tokens.len(),
{
    if tokens.len() > 0 {
        lemma_token_starts_len(tokens.drop_last());
    }
}

/// The LSP range of a token that starts at `start`.
pub open spec fn token_range(start: (int, int), t: SemanticToken) -> Range {
    Range {
        start: Position { line: start.0 as u32, character: start.1 as u32 },
        end: Position { line: start.0 as u32, character: (start.1 + t.length) as u32 },
    }
}

/// Whether bit `b` of `x` is set.
pub open spec fn bit_set(x: u32, b: u32) -> bool {
    (x >> b) & 1u32 == 1u32
}

/// The modifiers whose bits among the first `n` are set, in bit order.
pub open spec fn modifier_names(bits: u32, mods: Seq<Seq<char>>, n: nat) -> Seq<Seq<char>>
    decreases n,
{
    if n == 0 {
        Seq::empty()
    } else {
        modifier_names(bits, mods, (n - 1) as nat)
            + if bit_set(bits, (n - 1) as u32) { seq![mods[n - 1]] } else { Seq::empty() }
    }
}

/// Whether every set bit names a modifier of the legend.
pub open spec fn modifiers_in_legend(bits: u32, mods_len: nat) -> bool {
    forall|b: u32| b < 32 && #[trigger] bit_set(bits, b) ==> b < mods_len
}

/// Whether token `i` can be placed: no position counter overflows, its type
/// and modifiers are in the legend, and its range converts for the text.
pub open spec fn token_decodable_at(tokens: Seq<SemanticToken>, legend: SemanticLegend, lines: Seq<Seq<char>>, enc: OffsetEncoding, i: int) -> bool {
    let start = token_starts(tokens)[i];
    &&& start.0 <= u32::MAX
    &&& start.1 + tokens[i].length <= u32::MAX
    &&& tokens[i].token_type < legend.token_types@.len()
    &&& modifiers_in_legend(tokens[i].token_modifiers_bitset, legend.token_modifiers@.len())
    &&& range_defined(token_range(start, tokens[i]), lines, enc)
}

/// Whether every token can be placed; see `token_decodable_at`.
pub open spec fn tokens_decodable(tokens: Seq<SemanticToken>, legend: SemanticLegend, lines: Seq<Seq<char>>, enc: OffsetEncoding) -> bool {
    forall|i: int| 0 <= i < tokens.len() ==> #[trigger] token_decodable_at(tokens, legend, lines, enc, i)
}

/// A face rule as values.
pub struct FaceRule {
    pub face: Seq<char>,
    pub token: Seq<char>,
    pub modifiers: Seq<Seq<char>>,
}

/// The face rules as values.
pub open spec fn rules_view(faces: Seq<SemanticTokenFace>) -> Seq<FaceRule> {
    faces.map_values(|f: SemanticTokenFace| FaceRule { face: f.face@, token: f.token@, modifiers: strings_view(f.modifiers@) })
}

/// A rule applies to a token of its type that has all of its modifiers.
pub open spec fn rule_matches(r: FaceRule, name: Seq<char>, mods: Seq<Seq<char>>) -> bool {
    r.token == name && forall|k: int| 0 <= k < r.modifiers.len() ==> mods.contains(#[trigger] r.modifiers[k])
}

/// How many of the token's modifiers a rule names.
pub open spec fn rule_score(r: FaceRule, mods: Seq<Seq<char>>) -> nat
    decreases mods.len(),
{
    if mods.len() == 0 {
        0
    } else {
        rule_score(r, mods.drop_last()) + if r.modifiers.contains(mods.last()) { 1nat } else { 0nat }
    }
}

/// The rule that gives a token its face: of the rules that apply, one that
/// names most of its modifiers, the last such.
pub open spec fn best_rule(rules: Seq<FaceRule>, name: Seq<char>, mods: Seq<Seq<char>>) -> Option<int>
    decreases rules.len(),
{
    if rules.len() == 0 {
        None
    } else {
        let b = best_rule(rules.drop_last(), name, mods);
        let n = rules.len() - 1;
        if rule_matches(rules[n], name, mods) && (match b {
            None => true,
            Some(j) => rule_score(rules[j], mods) <= rule_score(rules[n], mods),
        }) {
            Some(n)
        } else {
            b
        }
    }
}

/// A token's highlighter entry, `range|face`, when a rule gives it a face.
pub open spec fn token_entry(
    start: (int, int),
    t: SemanticToken,
    legend: SemanticLegend,
    rules: Seq<FaceRule>,
    lines: Seq<Seq<char>>,
    enc: OffsetEncoding,
) -> Seq<Seq<char>> {
    let name = legend.token_types@[t.token_type as int]@;
    let mods = modifier_names(t.token_modifiers_bitset, strings_view(legend.token_modifiers@), 32);
    match best_rule(rules, name, mods) {
        Some(j) => seq![kakoune_range_text(range_to_kakoune(token_range(start, t), lines, enc)) + "|"@ + rules[j].face],
        None => Seq::empty(),
    }
}

/// The highlighter entries of tokens, in order.
pub open spec fn token_entries(
    tokens: Seq<SemanticToken>,
    legend: SemanticLegend,
    rules: Seq<FaceRule>,
    lines: Seq<Seq<char>>,
    enc: OffsetEncoding,
) -> Seq<Seq<char>>
    decreases tokens.len(),
{
    if tokens.len() == 0 {
        Seq::empty()
    } else {
        token_entries(tokens.drop_last(), legend, rules, lines, enc)
            + token_entry(token_starts(tokens).last(), tokens.last(), legend, rules, lines, enc)
    }
}

/// The command that sets a buffer's semantic token highlighter.
pub open spec fn semantic_tokens_text(
    buffile: Seq<char>,
    version: i32,
    tokens: Seq<SemanticToken>,
    legend: SemanticLegend,
    rules: Seq<FaceRule>,
    lines: Seq<Seq<char>>,
    enc: OffsetEncoding,
) -> Seq<char> {
    "eval -buffer "@ + editor_quote_spec(buffile) + " -verbatim -- set buffer lsp_semantic_tokens "@
        + int_decimal(version as int) + " "@ + join_with(token_entries(tokens, legend, rules, lines, enc), " "@)
}

/// Whether `v` holds the text `s`.
fn contains_str(v: &Vec<String>, s: &str) -> (res: bool)
    ensures
        res == strings_view(v@).contains(s@),
{
    let ghost sv = strings_view(v@);
    let mut i: usize = 0;
    while i < v.len()
        invariant
            i <= v@.len(),
            sv == strings_view(v@),
            forall|k: int| 0 <= k < i ==> sv[k] != s@,
        decreases v.len() - i,
    {
        if str_eq(v[i].as_str(), s) {
            assert(sv[i as int] == s@);
            return true;
        }
        i += 1;
    }
    proof {
        if sv.contains(s@) {
            let k = choose|k: int| 0 <= k < sv.len() && sv[k] == s@;
            assert(sv[k] != s@);
        }
    }
    false
}

/// The names of a token's modifiers, in bit order.
fn token_modifiers(bits: u32, mods: &Vec<String>) -> (res: Vec<String>)
    requires
        modifiers_in_legend(bits, mods@.len()),
    ensures
        strings_view(res@) == modifier_names(bits, strings_view(mods@), 32),
{
    let ghost mv = strings_view(mods@);
    let mut out: Vec<String> = Vec::new();
    let mut b: u32 = 0;
    assert(strings_view(out@) =~= modifier_names(bits, mv, 0));
    while b < 32
        invariant
            b <= 32,
            mv == strings_view(mods@),
            modifiers_in_legend(bits, mods@.len()),
            strings_view(out@) == modifier_names(bits, mv, b as nat),
        decreases 32 - b,
    {
        let ghost before = strings_view(out@);
        if (bits >> b) & 1u32 == 1u32 {
            assert(bit_set(bits, b));
            out.push(mods[b as usize].clone());
            assert(strings_view(out@) =~= before.push(mv[b as int]));
            assert(strings_view(out@) =~= modifier_names(bits, mv, (b + 1) as nat));
        } else {
            assert(strings_view(out@) =~= modifier_names(bits, mv, (b + 1) as nat));
        }
        b += 1;
    }
    out
}

/// The view of a face rule.
pub open spec fn rule_view(f: SemanticTokenFace) -> FaceRule {
    FaceRule { face: f.face@, token: f.token@, modifiers: strings_view(f.modifiers@) }
}

/// Whether a rule applies to a token; see `rule_matches`.
fn rule_applies(rule: &SemanticTokenFace, name: &str, mods: &Vec<String>) -> (res: bool)
    ensures
        res == rule_matches(rule_view(*rule), name@, strings_view(mods@)),
{
    let ghost rm = strings_view(rule.modifiers@);
    if !str_eq(rule.token.as_str(), name) {
        return false;
    }
    let mut k: usize = 0;
    while k < rule.modifiers.len()
        invariant
            k <= rule.modifiers@.len(),
            rm == strings_view(rule.modifiers@),
            forall|x: int| 0 <= x < k ==> strings_view(mods@).contains(#[trigger] rm[x]),
        decreases rule.modifiers.len() - k,
    {
        if !contains_str(mods, rule.modifiers[k].as_str()) {
            assert(rule_view(*rule).modifiers == rm);
            assert(!strings_view(mods@).contains(rule_view(*rule).modifiers[k as int]));
            return false;
        }
        k += 1;
    }
    true
}

/// How many of the token's modifiers a rule names; see `rule_score`.
fn rule_score_of(rule: &SemanticTokenFace, mods: &Vec<String>) -> (res: usize)
    ensures
        res as nat == rule_score(rule_view(*rule), strings_view(mods@)),
{
    let ghost mv = strings_view(mods@);
    let mut n: usize = 0;
    let mut i: usize = 0;
    assert(mv.take(0) =~= Seq::<Seq<char>>::empty());
    while i < mods.len()
        invariant
            i <= mods@.len(),
            mv == strings_view(mods@),
            n as nat == rule_score(rule_view(*rule), mv.take(i as int)),
            n <= i,
        decreases mods.len() - i,
    {
        assert(mv.take(i + 1).drop_last() =~= mv.take(i as int));
        assert(mv.take(i + 1).last() == mv[i as int]);
        if contains_str(&rule.modifiers, mods[i].as_str()) {
            n += 1;
        }
        i += 1;
    }
    assert(mv.take(i as int) =~= mv);
    n
}

/// The rule that gives a token its face; see `best_rule`.
fn best_rule_index(rules: &Vec<SemanticTokenFace>, name: &str, mods: &Vec<String>) -> (res: Option<usize>)
    ensures
        match res {
            Some(j) => best_rule(rules_view(rules@), name@, strings_view(mods@)) == Some(j as int) && j < rules@.len(),
            None => best_rule(rules_view(rules@), name@, strings_view(mods@)) is None,
        },
{
    let ghost rv = rules_view(rules@);
    let ghost mv = strings_view(mods@);
    let mut best: Option<usize> = None;
    let mut best_score: usize = 0;
    let mut i: usize = 0;
    assert(rv.take(0) =~= Seq::<FaceRule>::empty());
    while i < rules.len()
        invariant
            i <= rules@.len(),
            rv == rules_view(rules@),
            mv == strings_view(mods@),
            match best {
                Some(j) => best_rule(rv.take(i as int), name@, mv) == Some(j as int) && j < i
                    && best_score as nat == rule_score(rv[j as int], mv),
                None => best_rule(rv.take(i as int), name@, mv) is None,
            },
        decreases rules.len() - i,
    {
        proof {
            assert(rv.take(i + 1).drop_last() =~= rv.take(i as int));
            assert(rv.take(i + 1)[i as int] == rv[i as int]);
            assert(rv[i as int] == rule_view(rules@[i as int]));
            if let Some(j) = best {
                assert(rv.take(i + 1)[j as int] == rv[j as int]);
            }
        }
        if rule_applies(&rules[i], name, mods) {
            let score = rule_score_of(&rules[i], mods);
            let better = match best {
                None => true,
                Some(_) => best_score <= score,
            };
            if better {
                best = Some(i);
                best_score = score;
            }
        }
        i += 1;
    }
    assert(rv.take(i as int) =~= rv);
    best
}

/// Where a token starts, given where the one before it starts.
pub open spec fn next_start(prev: (int, int), t: SemanticToken) -> (int, int) {
    if t.delta_line != 0 { (prev.0 + t.delta_line, t.delta_start as int) } else { (prev.0, prev.1 + t.delta_start) }
}

proof fn lemma_token_starts_prefix(tokens: Seq<SemanticToken>, n: int)
    requires
        0 <= n <= tokens.len(),
    ensures
        token_starts(tokens.take(n)) == token_starts(tokens).take(n),
        token_starts(tokens).len() == tokens.len(),
    decreases tokens.len(),
{
    lemma_token_starts_len(tokens);
    if n == tokens.len() {
        assert(tokens.take(n) =~= tokens);
        assert(token_starts(tokens).take(n) =~= token_starts(tokens));
    } else {
        let d = tokens.drop_last();
        lemma_token_starts_prefix(d, n);
        assert(d.take(n) =~= tokens.take(n));
        assert(token_starts(d).take(n) =~= token_starts(tokens).take(n));
    }
}

/// Each token starts where `next_start` puts it after the one before.
proof fn lemma_token_starts_step(tokens: Seq<SemanticToken>, i: int)
    requires
        0 <= i < tokens.len(),
    ensures
        token_starts(tokens).len() == tokens.len(),
        token_starts(tokens)[i] == next_start(if i == 0 { (0int, 0int) } else { token_starts(tokens)[i - 1] }, tokens[i]),
{
    lemma_token_starts_prefix(tokens, i + 1);
    lemma_token_starts_prefix(tokens, i);
    let t1 = tokens.take(i + 1);
    assert(t1.drop_last() =~= tokens.take(i));
    assert(t1.last() == tokens[i]);
    lemma_token_starts_len(t1);
    assert(token_starts(t1)[i] == token_starts(tokens)[i]);
    if i > 0 {
        assert(token_starts(tokens.take(i)).last() == token_starts(tokens)[i - 1]);
    }
}

/// Whether tokens can be placed in the text; see `tokens_decodable`.
pub fn semantic_tokens_decodable(tokens: &Vec<SemanticToken>, legend: &SemanticLegend, text: &Rope, offset_encoding: OffsetEncoding) -> (res: bool)
    ensures
        res == tokens_decodable(tokens@, *legend, rope_lines(*text), offset_encoding),
{
    let ghost starts = token_starts(tokens@);
    proof {
        lemma_token_starts_len(tokens@);
    }
    let mut line: u32 = 0;
    let mut start: u32 = 0;
    let mut i: usize = 0;
    while i < tokens.len()
        invariant
            i <= tokens@.len(),
            starts == token_starts(tokens@),
            starts.len() == tokens@.len(),
            i > 0 ==> starts[i - 1] == (line as int, start as int),
            i == 0 ==> line == 0 && start == 0,
            forall|k: int| 0 <= k < i ==> #[trigger] token_decodable_at(tokens@, *legend, rope_lines(*text), offset_encoding, k),
        decreases tokens.len() - i,
    {
        let t = tokens[i];
        proof {
            lemma_token_starts_step(tokens@, i as int);
        }
        if t.delta_line != 0 {
            if t.delta_line > u32::MAX - line {
                assert(!token_decodable_at(tokens@, *legend, rope_lines(*text), offset_encoding, i as int));
                return false;
            }
            line = line + t.delta_line;
            start = t.delta_start;
        } else {
            if t.delta_start > u32::MAX - start {
                assert(!token_decodable_at(tokens@, *legend, rope_lines(*text), offset_encoding, i as int));
                return false;
            }
            start = start + t.delta_start;
        }
        assert(starts[i as int] == (line as int, start as int));
        if t.length > u32::MAX - start {
            assert(!token_decodable_at(tokens@, *legend, rope_lines(*text), offset_encoding, i as int));
            return false;
        }
        if t.token_type as usize >= legend.token_types.len() {
            assert(!token_decodable_at(tokens@, *legend, rope_lines(*text), offset_encoding, i as int));
            return false;
        }
        let mut b: u32 = 0;
        while b < 32
            invariant
                b <= 32,
                i < tokens@.len(),
                t == tokens@[i as int],
                forall|c: u32| c < b && #[trigger] bit_set(t.token_modifiers_bitset, c) ==> c < legend.token_modifiers@.len(),
            decreases 32 - b,
        {
            if (t.token_modifiers_bitset >> b) & 1u32 == 1u32 && b as usize >= legend.token_modifiers.len() {
                assert(bit_set(t.token_modifiers_bitset, b));
                assert(!modifiers_in_legend(t.token_modifiers_bitset, legend.token_modifiers@.len()));
                assert(!token_decodable_at(tokens@, *legend, rope_lines(*text), offset_encoding, i as int));
                return false;
            }
            b += 1;
        }
        let range = Range {
            start: Position { line, character: start },
            end: Position { line, character: start + t.length },
        };
        assert(range == token_range(starts[i as int], t));
        if !lsp_range_convertible(&range, text, offset_encoding) {
            assert(!token_decodable_at(tokens@, *legend, rope_lines(*text), offset_encoding, i as int));
            return false;
        }
        assert(token_decodable_at(tokens@, *legend, rope_lines(*text), offset_encoding, i as int));
        i += 1;
    }
    true
}

/// The highlighter entry of token `i`, which starts at `start`; see
/// `token_entry`.
fn token_entry_text(
    t: SemanticToken,
    line: u32,
    start: u32,
    legend: &SemanticLegend,
    faces: &Vec<SemanticTokenFace>,
    text: &Rope,
    offset_encoding: OffsetEncoding,
) -> (res: Option<String>)
    requires
        start + t.length <= u32::MAX,
        t.token_type < legend.token_types@.len(),
        modifiers_in_legend(t.token_modifiers_bitset, legend.token_modifiers@.len()),
        range_defined(token_range((line as int, start as int), t), rope_lines(*text), offset_encoding),
    ensures
        match res {
            Some(e) => token_entry((line as int, start as int), t, *legend, rules_view(faces@), rope_lines(*text), offset_encoding) == seq![e@],
            None => token_entry((line as int, start as int), t, *legend, rules_view(faces@), rope_lines(*text), offset_encoding) == Seq::<Seq<char>>::empty(),
        },
{
    let name = legend.token_types[t.token_type as usize].as_str();
    let mods = token_modifiers(t.token_modifiers_bitset, &legend.token_modifiers);
    match best_rule_index(faces, name, &mods) {
        Some(j) => {
            let range = Range {
                start: Position { line, character: start },
                end: Position { line, character: start + t.length },
            };
            assert(range == token_range((line as int, start as int), t));
            let kr = lsp_range_to_kakoune(&range, text, offset_encoding);
            let mut e = kr.to_string();
            push_char(&mut e, '|');
            push_str(&mut e, faces[j].face.as_str());
            proof {
                reveal_strlit("|");
                assert(rules_view(faces@)[j as int].face == faces@[j as int].face@);
                assert(e@ =~= kakoune_range_text(range_to_kakoune(token_range((line as int, start as int), t), rope_lines(*text), offset_encoding))
                    + "|"@ + rules_view(faces@)[j as int].face);
            }
            Some(e)
        },
        None => None,
    }
}

/// The command that sets a buffer's semantic token highlighter: an entry
/// `range|face` per token that a face rule applies to, the face of the
/// rule that names most of the token's modifiers (the last such). See
/// `semantic_tokens_text`.
pub fn semantic_tokens_command(
    buffile: &str,
    version: i32,
    tokens: &Vec<SemanticToken>,
    legend: &SemanticLegend,
    faces: &Vec<SemanticTokenFace>,
    text: &Rope,
    offset_encoding: OffsetEncoding,
) -> (res: String)
    requires
        tokens_decodable(tokens@, *legend, rope_lines(*text), offset_encoding),
    ensures
        res@ == semantic_tokens_text(buffile@, version, tokens@, *legend, rules_view(faces@), rope_lines(*text), offset_encoding),
{
    let ghost starts = token_starts(tokens@);
    let ghost rv = rules_view(faces@);
    let ghost lines = rope_lines(*text);
    proof {
        lemma_token_starts_len(tokens@);
    }
    let mut entries: Vec<String> = Vec::new();
    let mut line: u32 = 0;
    let mut start: u32 = 0;
    let mut i: usize = 0;
    assert(tokens@.take(0) =~= Seq::<SemanticToken>::empty());
    while i < tokens.len()
        invariant
            i <= tokens@.len(),
            starts == token_starts(tokens@),
            starts.len() == tokens@.len(),
            rv == rules_view(faces@),
            lines == rope_lines(*text),
            tokens_decodable(tokens@, *legend, lines, offset_encoding),
            i > 0 ==> starts[i - 1] == (line as int, start as int),
            i == 0 ==> line == 0 && start == 0,
            strings_view(entries@) == token_entries(tokens@.take(i as int), *legend, rv, lines, offset_encoding),
        decreases tokens.len() - i,
    {
        let t = tokens[i];
        proof {
            lemma_token_starts_step(tokens@, i as int);
            assert(token_decodable_at(tokens@, *legend, lines, offset_encoding, i as int));
        }
        if t.delta_line != 0 {
            line = line + t.delta_line;
            start = t.delta_start;
        } else {
            start = start + t.delta_start;
        }
        assert(starts[i as int] == (line as int, start as int));
        let ghost before = strings_view(entries@);
        let entry = token_entry_text(t, line, start, legend, faces, text, offset_encoding);
        proof {
            let t1 = tokens@.take(i + 1);
            assert(t1.drop_last() =~= tokens@.take(i as int));
            assert(t1.last() == t);
            lemma_token_starts_prefix(tokens@, i + 1);
            lemma_token_starts_len(t1);
            assert(token_starts(t1).last() == starts[i as int]);
        }
        match entry {
            Some(e) => {
                let ghost ev = e@;
                entries.push(e);
                assert(strings_view(entries@) =~= before.push(ev));
                assert(strings_view(entries@) =~= token_entries(tokens@.take(i + 1), *legend, rv, lines, offset_encoding));
            },
            None => {
                assert(strings_view(entries@) =~= token_entries(tokens@.take(i + 1), *legend, rv, lines, offset_encoding));
            },
        }
        i += 1;
    }
    assert(tokens@.take(i as int) =~= tokens@);
    let ranges = join_strs(&entries, " ");
    let mut out = String::new();
    push_str(&mut out, "eval -buffer ");
    let q = editor_quote(buffile);
    push_str(&mut out, q.as_str());
    push_str(&mut out, " -verbatim -- set buffer lsp_semantic_tokens ");
    push_int(&mut out, version);
    push_str(&mut out, " ");
    push_str(&mut out, ranges.as_str());
    assert(out@ =~= semantic_tokens_text(buffile@, version, tokens@, *legend, rv, lines, offset_encoding));
    out
}

/// A token gets its face from a rule for its type whose modifiers it all
/// carries; of those rules, from one that names the most of the token's
/// modifiers, and of those the last. With no such rule it gets none.
pub proof fn lemma_best_rule_chooses(rules: Seq<FaceRule>, name: Seq<char>, mods: Seq<Seq<char>>)
    ensures
        match best_rule(rules, name, mods) {
            None => forall|k: int| 0 <= k < rules.len() ==> !rule_matches(#[trigger] rules[k], name, mods),
            Some(j) => {
                &&& 0 <= j < rules.len()
                &&& rule_matches(rules[j], name, mods)
                &&& forall|k: int| 0 <= k < rules.len() && rule_matches(#[trigger] rules[k], name, mods)
                    ==> rule_score(rules[k], mods) <= rule_score(rules[j], mods)
                        && (k > j ==> rule_score(rules[k], mods) < rule_score(rules[j], mods))
            },
        },
    decreases rules.len(),
{
    if rules.len() > 0 {
        let d = rules.drop_last();
        lemma_best_rule_chooses(d, name, mods);
        assert forall|k: int| 0 <= k < d.len() implies d[k] == rules[k] by {}
    }
}

} // verus!
