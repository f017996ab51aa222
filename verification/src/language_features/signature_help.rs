//! Signature help: the active signature's label, with the active parameter
//! in bold.

use vstd::prelude::*;
use crate::markup::{escape_kakoune_markup, markup_escape_spec};
use crate::rope::utf8_len;
use crate::strings::{chars_of, push_char, push_str};
use crate::types::{kakoune_position_text, KakounePosition, OffsetEncoding};
use crate::utf8_lemmas::{lemma_utf8_len_single, lemma_utf8_len_take_ge, lemma_utf8_len_take_step, lemma_utf8_len_take_strict};
use crate::util::{editor_quote, editor_quote_spec};

verus! {

/// Where a parameter stands in its signature's label: as a substring of it,
/// or between two character offsets (in the server's offset encoding).
#[derive(Clone, Debug)]
pub enum ParameterLabel {
    Simple(String),
    LabelOffsets(u32, u32),
}

/// A signature: its label, its parameters, and which of them is active.
#[derive(Clone, Debug)]
pub struct SignatureInformation {
    pub label: String,
    pub parameters: Option<Vec<ParameterLabel>>,
    pub active_parameter: Option<u32>,
}

/// What a server answers for signature help.
#[derive(Clone, Debug)]
pub struct SignatureHelp {
    pub signatures: Vec<SignatureInformation>,
    pub active_signature: Option<u32>,
    pub active_parameter: Option<u32>,
}

/// The first index from `k` on at which `needle` occurs in `hay`.
pub open spec fn find_from(hay: Seq<char>, needle: Seq<char>, k: int) -> Option<int>
    decreases hay.len() + 1 - k,
{
    if k < 0 || k + needle.len() > hay.len() {
        None
    } else if hay.subrange(k, k + needle.len()) == needle {
        Some(k)
    } else {
        find_from(hay, needle, k + 1)
    }
}

proof fn lemma_find_from_found(hay: Seq<char>, needle: Seq<char>, k: int)
    ensures
        find_from(hay, needle, k) matches Some(f) ==> k <= f && f + needle.len() <= hay.len(),
    decreases hay.len() + 1 - k,
{
    if !(k < 0 || k + needle.len() > hay.len()) && hay.subrange(k, k + needle.len()) != needle {
        lemma_find_from_found(hay, needle, k + 1);
    }
}

/// The index of the char at which byte offset `b` of `s` starts.
pub open spec fn char_at_byte(s: Seq<char>, b: int) -> int {
    choose|k: int| 0 <= k <= s.len() && utf8_len(s.take(k)) == b
}

/// Whether byte offset `b` of `s` starts a char (or is its end).
pub open spec fn is_char_boundary(s: Seq<char>, b: int) -> bool {
    exists|k: int| 0 <= k <= s.len() && utf8_len(s.take(k)) == b
}

/// The active signature: the one the server names, else the first, if there
/// is one.
pub open spec fn active_signature(help: SignatureHelp) -> Option<SignatureInformation> {
    let a = match help.active_signature {
        Some(a) => a as int,
        None => 0,
    };
    if a < help.signatures.len() {
        Some(help.signatures@[a])
    } else {
        None
    }
}

/// The active parameter of a signature: the one it names, else the one the
/// answer names, else the first; if the signature lists parameters and that
/// one is among them.
pub open spec fn active_parameter(help: SignatureHelp, sig: SignatureInformation) -> Option<ParameterLabel> {
    let p = match sig.active_parameter {
        Some(p) => p as int,
        None => match help.active_parameter {
            Some(p) => p as int,
            None => 0,
        },
    };
    match sig.parameters {
        Some(ps) => if p < ps.len() {
            Some(ps@[p])
        } else {
            None
        },
        None => None,
    }
}

/// The chars of the label that the parameter spans, if it is highlighted:
/// a parameter given as a substring spans its first occurrence, one given by
/// offsets spans them (chars, or bytes with UTF-8); none is highlighted when
/// it is not found, or when it reaches the end of the label.
pub open spec fn parameter_span(label: Seq<char>, param: ParameterLabel, enc: OffsetEncoding) -> Option<(int, int)> {
    match param {
        ParameterLabel::Simple(p) => match find_from(label, p@, 0) {
            Some(k) => if k + p@.len() >= label.len() {
                None
            } else {
                Some((k, k + p@.len()))
            },
            None => None,
        },
        ParameterLabel::LabelOffsets(a, b) => match enc {
            OffsetEncoding::Utf16 => if a >= label.len() || b >= label.len() {
                None
            } else {
                Some((a as int, b as int))
            },
            OffsetEncoding::Utf8 => if a >= utf8_len(label) || b >= utf8_len(label) {
                None
            } else {
                Some((char_at_byte(label, a as int), char_at_byte(label, b as int)))
            },
        },
    }
}

/// Whether the offsets of a parameter name places in its label: each within
/// the label, and, where both lie before its end, in order (and at the
/// starts of chars, for UTF-8).
pub open spec fn offsets_valid(label: Seq<char>, param: ParameterLabel, enc: OffsetEncoding) -> bool {
    match param {
        ParameterLabel::Simple(_) => true,
        ParameterLabel::LabelOffsets(a, b) => match enc {
            OffsetEncoding::Utf16 => a <= label.len() && b <= label.len() && (a < label.len() && b < label.len()
                ==> a <= b),
            OffsetEncoding::Utf8 => a <= utf8_len(label) && b <= utf8_len(label) && (a < utf8_len(label) && b
                < utf8_len(label) ==> a <= b && is_char_boundary(label, a as int) && is_char_boundary(
                label,
                b as int,
            )),
        },
    }
}

/// Whether signature help can be shown: the active parameter, if any,
/// names a place in the active signature's label.
pub open spec fn help_valid(help: SignatureHelp, enc: OffsetEncoding) -> bool {
    match active_signature(help) {
        Some(sig) => match active_parameter(help, sig) {
            Some(p) => offsets_valid(sig.label@, p, enc),
            None => true,
        },
        None => true,
    }
}

/// The label with the span in bold, each part escaped for markup; the label
/// as it is when nothing is highlighted.
pub open spec fn highlighted_label(label: Seq<char>, span: Option<(int, int)>) -> Seq<char> {
    match span {
        Some((k0, k1)) => markup_escape_spec(label.take(k0)) + "{+b}"@ + markup_escape_spec(label.subrange(k0, k1)) + "{}"@
            + markup_escape_spec(label.skip(k1)),
        None => label,
    }
}

/// The command that shows signature help at a position; none when there is
/// no active signature.
pub open spec fn signature_help_command(help: SignatureHelp, position: KakounePosition, enc: OffsetEncoding) -> Option<Seq<char>> {
    match active_signature(help) {
        Some(sig) => {
            let span = match active_parameter(help, sig) {
                Some(p) => parameter_span(sig.label@, p, enc),
                None => None,
            };
            Some(
                "lsp-show-signature-help "@ + kakoune_position_text(position) + seq![' '] + editor_quote_spec(
                    highlighted_label(sig.label@, span),
                ),
            )
        },
        None => None,
    }
}

/// The UTF-8 width of a char.
fn char_width(c: char) -> (res: usize)
    ensures
        res == utf8_len(seq![c]),
{
    proof {
        lemma_utf8_len_single(c);
    }
    let v = c as u32;
    if v <= 0x7F {
        1
    } else if v <= 0x7FF {
        2
    } else if v <= 0xFFFF {
        3
    } else {
        4
    }
}

/// The first index at which `needle` occurs in `hay`; see `find_from`.
pub(crate) fn find_chars(hay: &Vec<char>, needle: &Vec<char>) -> (res: Option<usize>)
    ensures
        match find_from(hay@, needle@, 0) {
            Some(k) => res == Some(k as usize),
            None => res is None,
        },
        res matches Some(k) ==> k + needle.len() <= hay.len(),
{
    proof {
        lemma_find_from_found(hay@, needle@, 0);
    }
    let n = hay.len();
    let m = needle.len();
    if m > n {
        return None;
    }
    let mut k: usize = 0;
    while k <= n - m
        invariant
            m <= n,
            n == hay.len(),
            m == needle.len(),
            find_from(hay@, needle@, 0) == find_from(hay@, needle@, k as int),
        decreases n - k,
    {
        let mut j: usize = 0;
        let mut same = true;
        assert(hay@.subrange(k as int, k as int) =~= needle@.take(0));
        while j < m && same
            invariant
                j <= m,
                k + m <= n,
                n == hay.len(),
                m == needle.len(),
                same == (hay@.subrange(k as int, k + j) == needle@.take(j as int)),
                !same ==> j >= 1 && hay@[k + j - 1] != needle@[j - 1],
            decreases m - j,
        {
            if hay[k + j] != needle[j] {
                same = false;
                assert(hay@.subrange(k as int, k + j + 1)[j as int] != needle@.take(j + 1)[j as int]);
                assert(hay@.subrange(k as int, k + j) != needle@.take(j as int) || true);
            } else {
                assert(hay@.subrange(k as int, k + j + 1) =~= hay@.subrange(k as int, k + j).push(hay@[k + j]));
                assert(needle@.take(j + 1) =~= needle@.take(j as int).push(needle@[j as int]));
            }
            j = j + 1;
        }
        proof {
            if same {
                assert(j == m);
                assert(needle@.take(m as int) =~= needle@);
            } else {
                let t = j - 1;
                assert(hay@.subrange(k as int, k + m)[t] != needle@[t]);
                assert(hay@.subrange(k as int, k + m) != needle@);
                assert(find_from(hay@, needle@, k as int) == find_from(hay@, needle@, k + 1));
            }
        }
        if same {
            return Some(k);
        }
        if k == n - m {
            assert(find_from(hay@, needle@, k + 1) is None);
            return None;
        }
        k = k + 1;
    }
    None
}

/// Appends chars `from..to` of `chars`, escaped for markup.
fn push_escaped_chars(out: &mut String, chars: &Vec<char>, from: usize, to: usize)
    requires
        from <= to <= chars.len(),
    ensures
        final(out)@ == old(out)@ + markup_escape_spec(chars@.subrange(from as int, to as int)),
{
    let mut part = String::new();
    let mut i = from;
    while i < to
        invariant
            from <= i <= to,
            to <= chars.len(),
            part@ == chars@.subrange(from as int, i as int),
        decreases to - i,
    {
        push_char(&mut part, chars[i]);
        assert(chars@.subrange(from as int, i + 1) =~= chars@.subrange(from as int, i as int).push(chars@[i as int]));
        i = i + 1;
    }
    let e = escape_kakoune_markup(part.as_str());
    push_str(out, e.as_str());
}

/// The char index at which byte `b` of a label starts; see `char_at_byte`.
fn char_index_of_byte(chars: &Vec<char>, b: usize) -> (res: usize)
    requires
        is_char_boundary(chars@, b as int),
    ensures
        res == char_at_byte(chars@, b as int),
        res <= chars.len(),
{
    let ghost s = chars@;
    let ghost k0 = choose|k: int| 0 <= k <= s.len() && utf8_len(s.take(k)) == b;
    let mut k: usize = 0;
    let mut acc: usize = 0;
    proof {
        assert(s.take(0) =~= Seq::<char>::empty());
        assert(utf8_len(Seq::<char>::empty()) == 0) by {
            assert(crate::rope::utf8_len(Seq::<char>::empty()) == vstd::utf8::encode_utf8(Seq::<char>::empty()).len());
        }
    }
    while acc < b
        invariant
            k <= chars.len(),
            s == chars@,
            0 <= k0 <= s.len(),
            utf8_len(s.take(k0)) == b,
            acc == utf8_len(s.take(k as int)),
            acc <= b,
            k <= k0,
        decreases b - acc,
    {
        proof {
            if k as int == k0 {
                assert(false);
            }
            lemma_utf8_len_take_step(s, k as int);
            if k + 1 < k0 {
                lemma_utf8_len_take_strict(s, k + 1, k0);
            }
        }
        let w = char_width(chars[k]);
        acc = acc + w;
        k = k + 1;
    }
    proof {
        if (k as int) < k0 {
            lemma_utf8_len_take_strict(s, k as int, k0);
        }
        assert(k as int == k0);
        let c = choose|k: int| 0 <= k <= s.len() && utf8_len(s.take(k)) == b;
        if c < k0 {
            lemma_utf8_len_take_strict(s, c, k0);
        } else if c > k0 {
            lemma_utf8_len_take_strict(s, k0, c);
        }
    }
    k
}

/// Where byte offset `b` lies in a label: within it (or at its end), before
/// its end, and at the start of a char (or at its end).
fn byte_facts(chars: &Vec<char>, b: u32) -> (res: (bool, bool, bool))
    ensures
        res.0 == (b <= utf8_len(chars@)),
        res.1 == (b < utf8_len(chars@)),
        res.2 == is_char_boundary(chars@, b as int),
{
    let ghost s = chars@;
    let n = chars.len();
    let mut k: usize = 0;
    let mut acc: u64 = 0;
    proof {
        assert(s.take(0) =~= Seq::<char>::empty());
        assert(utf8_len(Seq::<char>::empty()) == 0) by {
            assert(crate::rope::utf8_len(Seq::<char>::empty()) == vstd::utf8::encode_utf8(Seq::<char>::empty()).len());
        }
    }
    while k < n && acc < b as u64
        invariant
            k <= n,
            n == chars.len(),
            s == chars@,
            acc == utf8_len(s.take(k as int)),
            acc <= b as u64 + 4,
            forall|j: int| 0 <= j < k ==> utf8_len(#[trigger] s.take(j)) < b,
        decreases n - k,
    {
        proof {
            lemma_utf8_len_take_step(s, k as int);
        }
        let w = char_width(chars[k]);
        acc = acc + w as u64;
        k = k + 1;
    }
    proof {
        assert(s.take(n as int) =~= s);
        lemma_utf8_len_take_ge(s, k as int);
        if k < n {
            lemma_utf8_len_take_strict(s, k as int, n as int);
        }
        // No prefix other than the one reached can have length `b`.
        assert forall|j: int| 0 <= j <= s.len() && j != k implies utf8_len(#[trigger] s.take(j)) != b by {
            if j > k {
                lemma_utf8_len_take_strict(s, k as int, j);
            }
        }
        if acc == b as u64 {
            assert(utf8_len(s.take(k as int)) == b);
        }
    }
    let within = acc >= b as u64;
    let before_end = within && k < n;
    let boundary = acc == b as u64;
    proof {
        if !within {
            assert(k == n);
        }
    }
    (within || acc == b as u64, before_end || (acc > b as u64), boundary)
}

/// Whether signature help can be shown; see `help_valid`.
pub fn signature_help_valid(help: &SignatureHelp, offset_encoding: OffsetEncoding) -> (res: bool)
    ensures
        res == help_valid(*help, offset_encoding),
{
    let a = match help.active_signature {
        Some(a) => a as usize,
        None => 0,
    };
    if a >= help.signatures.len() {
        return true;
    }
    let sig = &help.signatures[a];
    let p = match sig.active_parameter {
        Some(p) => p as usize,
        None => match help.active_parameter {
            Some(p) => p as usize,
            None => 0,
        },
    };
    let param = match &sig.parameters {
        Some(ps) => if p < ps.len() {
            &ps[p]
        } else {
            return true;
        },
        None => return true,
    };
    match param {
        ParameterLabel::Simple(_) => true,
        ParameterLabel::LabelOffsets(x, y) => {
            let chars = chars_of(sig.label.as_str());
            match offset_encoding {
                OffsetEncoding::Utf16 => {
                    let n = chars.len();
                    let (x, y) = (*x as usize, *y as usize);
                    x <= n && y <= n && (!(x < n && y < n) || x <= y)
                },
                OffsetEncoding::Utf8 => {
                    let (x_in, x_before, x_boundary) = byte_facts(&chars, *x);
                    let (y_in, y_before, y_boundary) = byte_facts(&chars, *y);
                    x_in && y_in && (!(x_before && y_before) || (*x <= *y && x_boundary && y_boundary))
                },
            }
        },
    }
}

/// The command that shows signature help at a position; see
/// `signature_help_command`.
pub fn editor_signature_help(help: &SignatureHelp, position: KakounePosition, offset_encoding: OffsetEncoding) -> (res: Option<String>)
    requires
        help_valid(*help, offset_encoding),
    ensures
        match signature_help_command(*help, position, offset_encoding) {
            Some(c) => res matches Some(r) && r@ == c,
            None => res is None,
        },
{
    let a = match help.active_signature {
        Some(a) => a as usize,
        None => 0,
    };
    if a >= help.signatures.len() {
        return None;
    }
    let sig = &help.signatures[a];
    let p = match sig.active_parameter {
        Some(p) => p as usize,
        None => match help.active_parameter {
            Some(p) => p as usize,
            None => 0,
        },
    };
    let chars = chars_of(sig.label.as_str());
    let n = chars.len();
    let ghost label = sig.label@;
    let param: Option<&ParameterLabel> = match &sig.parameters {
        Some(ps) => if p < ps.len() {
            Some(&ps[p])
        } else {
            None
        },
        None => None,
    };
    let span: Option<(usize, usize)> = match param {
        None => None,
        Some(ParameterLabel::Simple(needle)) => {
            let nc = chars_of(needle.as_str());
            match find_chars(&chars, &nc) {
                Some(k) => if k + nc.len() >= n {
                    None
                } else {
                    Some((k, k + nc.len()))
                },
                None => None,
            }
        },
        Some(ParameterLabel::LabelOffsets(x, y)) => match offset_encoding {
            OffsetEncoding::Utf16 => if *x as usize >= n || *y as usize >= n {
                None
            } else {
                Some((*x as usize, *y as usize))
            },
            OffsetEncoding::Utf8 => {
                let (_, x_before, _) = byte_facts(&chars, *x);
                let (_, y_before, _) = byte_facts(&chars, *y);
                if !x_before || !y_before {
                    None
                } else {
                    let kx = char_index_of_byte(&chars, *x as usize);
                    let ky = char_index_of_byte(&chars, *y as usize);
                    proof {
                        if kx > ky {
                            lemma_utf8_len_take_strict(label, ky as int, kx as int);
                        }
                    }
                    Some((kx, ky))
                }
            },
        },
    };
    let ghost spec_span = match active_parameter(*help, *sig) {
        Some(pl) => parameter_span(label, pl, offset_encoding),
        None => None,
    };
    proof {
        match param {
            Some(ParameterLabel::Simple(needle)) => {
                lemma_find_from_found(label, needle@, 0);
            },
            _ => {},
        }
        if let Some((k0, k1)) = span {
            assert(spec_span == Some((k0 as int, k1 as int)) && k0 <= k1 <= n);
        } else {
            assert(spec_span is None);
        }
    }
    let mut contents = String::new();
    match span {
        Some((k0, k1)) => {
            push_escaped_chars(&mut contents, &chars, 0, k0);
            push_str(&mut contents, "{+b}");
            push_escaped_chars(&mut contents, &chars, k0, k1);
            push_str(&mut contents, "{}");
            push_escaped_chars(&mut contents, &chars, k1, n);
            proof {
                assert(label.subrange(0, k0 as int) =~= label.take(k0 as int));
                assert(label.subrange(k1 as int, n as int) =~= label.skip(k1 as int));
            }
        },
        None => {
            push_str(&mut contents, sig.label.as_str());
        },
    }
    assert(contents@ =~= highlighted_label(label, spec_span));
    let mut out = String::new();
    push_str(&mut out, "lsp-show-signature-help ");
    position.push_to(&mut out);
    push_char(&mut out, ' ');
    let q = editor_quote(contents.as_str());
    push_str(&mut out, q.as_str());
    Some(out)
}

} // verus!
