//! Rendering markdown (as language servers send it) into the text Kakoune
//! shows, with face markup for emphasis.

use vstd::prelude::*;
use pulldown_cmark::{Event, Parser, Tag};
use crate::strings::{chars_of, push_char, push_str};

verus! {

/// The markdown elements that rendering tells apart.
#[derive(Clone, Copy, Debug, PartialEq, Eq, Structural)]
pub enum MarkdownTag {
    Paragraph,
    /// A heading of the given level.
    Heading(u32),
    BlockQuote,
    CodeBlock,
    /// A list item.
    Item,
    Emphasis,
    Strong,
    /// Any other element (lists, footnote definitions, tables, strikethrough,
    /// links, images): rendered by its contents alone.
    Other,
}

/// A markdown parsing event.
#[derive(Clone, Debug)]
pub enum MarkdownEvent {
    Start(MarkdownTag),
    End(MarkdownTag),
    Text(String),
    /// Inline code.
    Code(String),
    Html(String),
    FootnoteReference(String),
    SoftBreak,
    HardBreak,
    /// A horizontal rule.
    Rule,
    TaskListMarker(bool),
}

/// What a markdown event says, its text as chars.
pub enum MarkdownEventModel {
    Start(MarkdownTag),
    End(MarkdownTag),
    Text(Seq<char>),
    Code(Seq<char>),
    Html(Seq<char>),
    FootnoteReference(Seq<char>),
    SoftBreak,
    HardBreak,
    Rule,
    TaskListMarker(bool),
}

impl View for MarkdownEvent {
    type V = MarkdownEventModel;

    open spec fn view(&self) -> MarkdownEventModel {
        match self {
            MarkdownEvent::Start(t) => MarkdownEventModel::Start(*t),
            MarkdownEvent::End(t) => MarkdownEventModel::End(*t),
            MarkdownEvent::Text(s) => MarkdownEventModel::Text(s@),
            MarkdownEvent::Code(s) => MarkdownEventModel::Code(s@),
            MarkdownEvent::Html(s) => MarkdownEventModel::Html(s@),
            MarkdownEvent::FootnoteReference(s) => MarkdownEventModel::FootnoteReference(s@),
            MarkdownEvent::SoftBreak => MarkdownEventModel::SoftBreak,
            MarkdownEvent::HardBreak => MarkdownEventModel::HardBreak,
            MarkdownEvent::Rule => MarkdownEventModel::Rule,
            MarkdownEvent::TaskListMarker(b) => MarkdownEventModel::TaskListMarker(*b),
        }
    }
}

/// What a sequence of markdown events says.
pub open spec fn event_models(events: Seq<MarkdownEvent>) -> Seq<MarkdownEventModel> {
    events.map_values(|e: MarkdownEvent| e@)
}

/// The events that pulldown-cmark's CommonMark parser yields for a text.
pub uninterp spec fn markdown_events(text: Seq<char>) -> Seq<MarkdownEventModel>;

#[verifier::external_type_specification]
#[verifier::external_body]
pub struct ExTag<'a>(Tag<'a>);

/// A parser tag as the element that rendering tells apart.
#[verifier::external_body]
fn markdown_tag(tag: Tag) -> MarkdownTag {
    match tag {
        Tag::Paragraph => MarkdownTag::Paragraph,
        Tag::Heading(n) => MarkdownTag::Heading(n),
        Tag::BlockQuote => MarkdownTag::BlockQuote,
        Tag::CodeBlock(_) => MarkdownTag::CodeBlock,
        Tag::Item => MarkdownTag::Item,
        Tag::Emphasis => MarkdownTag::Emphasis,
        Tag::Strong => MarkdownTag::Strong,
        _ => MarkdownTag::Other,
    }
}

/// `pulldown_cmark::Parser::new` run over `text`: its events, in order.
#[verifier::external_body]
pub fn parse_markdown(text: &str) -> (res: Vec<MarkdownEvent>)
    ensures
        event_models(res@) == markdown_events(text@),
{
    Parser::new(text).map(|e| match e {
        Event::Start(t) => MarkdownEvent::Start(markdown_tag(t)),
        Event::End(t) => MarkdownEvent::End(markdown_tag(t)),
        Event::Text(s) => MarkdownEvent::Text(s.to_string()),
        Event::Code(s) => MarkdownEvent::Code(s.to_string()),
        Event::Html(s) => MarkdownEvent::Html(s.to_string()),
        Event::FootnoteReference(s) => MarkdownEvent::FootnoteReference(s.to_string()),
        Event::SoftBreak => MarkdownEvent::SoftBreak,
        Event::HardBreak => MarkdownEvent::HardBreak,
        Event::Rule => MarkdownEvent::Rule,
        Event::TaskListMarker(b) => MarkdownEvent::TaskListMarker(b),
    }).collect()
}

// ---------------------------------------------------------------------------
// Specification of rendering

/// The index of the first line feed in `s` at or after `i`.
pub open spec fn first_newline(s: Seq<char>, i: int) -> Option<int>
    decreases s.len() - i,
{
    if i < 0 || i >= s.len() {
        None
    } else if s[i] == '\n' {
        Some(i)
    } else {
        first_newline(s, i + 1)
    }
}

/// The pieces of `s` between line feeds (as `str::split('\n')` gives them).
pub open spec fn split_newlines(s: Seq<char>) -> Seq<Seq<char>>
    decreases s.len(),
{
    match first_newline(s, 0) {
        None => seq![s],
        Some(k) => if 0 <= k < s.len() {
            seq![s.take(k)] + split_newlines(s.skip(k + 1))
        } else {
            seq![s]
        },
    }
}

/// Each non-empty piece, after `prefix`, on a line of its own.
pub open spec fn prefixed_pieces(pieces: Seq<Seq<char>>, prefix: Seq<char>) -> Seq<char>
    decreases pieces.len(),
{
    if pieces.len() == 0 {
        Seq::empty()
    } else {
        (if pieces[0].len() > 0 { prefix + pieces[0] + seq!['\n'] } else { Seq::empty() })
            + prefixed_pieces(pieces.drop_first(), prefix)
    }
}

/// Each non-empty line of `s`, after `prefix`, on a line of its own.
pub open spec fn prefixed_lines(s: Seq<char>, prefix: Seq<char>) -> Seq<char> {
    prefixed_pieces(split_newlines(s), prefix)
}

/// The face markup for the current emphasis: `{+i}`, `{+b}`, `{+ib}`, or `{}` for none.
pub open spec fn style_markup(italic: bool, bold: bool) -> Seq<char> {
    seq!['{'] + (if italic || bold { seq!['+'] } else { Seq::empty() }) + (if italic { seq!['i'] } else { Seq::empty() })
        + (if bold { seq!['b'] } else { Seq::empty() }) + seq!['}']
}

/// `n` copies of `c`.
pub open spec fn repeat_char(c: char, n: nat) -> Seq<char>
    decreases n,
{
    if n == 0 { Seq::empty() } else { repeat_char(c, (n - 1) as nat).push(c) }
}

/// Where rendering stands: the text so far, and the elements it is inside.
pub struct RenderState {
    pub out: Seq<char>,
    pub italic: bool,
    pub bold: bool,
    pub code_block: bool,
    pub blockquote: bool,
}

/// The text of a `Text`, `Html` or footnote reference event: inside a code
/// block each line indented, inside a block quote each line quoted, else as it is.
pub open spec fn text_rendering(st: RenderState, t: Seq<char>) -> Seq<char> {
    if st.code_block {
        prefixed_lines(t, seq![' ', ' '])
    } else if st.blockquote {
        prefixed_lines(t, seq!['>', ' '])
    } else {
        t
    }
}

/// Rendering one more event.
pub open spec fn render_step(st: RenderState, e: MarkdownEventModel) -> RenderState {
    match e {
        MarkdownEventModel::Start(tag) => match tag {
            MarkdownTag::Heading(n) => RenderState { out: st.out + repeat_char('#', n as nat) + seq![' '], ..st },
            MarkdownTag::BlockQuote => RenderState { blockquote: true, ..st },
            MarkdownTag::CodeBlock => RenderState { code_block: true, ..st },
            MarkdownTag::Item => RenderState { out: st.out + seq!['-', ' '], ..st },
            MarkdownTag::Emphasis => RenderState { out: st.out + style_markup(true, st.bold), italic: true, ..st },
            MarkdownTag::Strong => RenderState { out: st.out + style_markup(st.italic, true), bold: true, ..st },
            _ => st,
        },
        MarkdownEventModel::End(tag) => match tag {
            MarkdownTag::Paragraph => RenderState { out: st.out + seq!['\n', '\n'], ..st },
            MarkdownTag::Heading(_) => RenderState { out: st.out + seq!['\n'], ..st },
            MarkdownTag::BlockQuote => RenderState { blockquote: false, ..st },
            MarkdownTag::CodeBlock => RenderState { out: st.out + seq!['\n'], code_block: false, ..st },
            MarkdownTag::Emphasis => RenderState { out: st.out + style_markup(false, st.bold), italic: false, ..st },
            MarkdownTag::Strong => RenderState { out: st.out + style_markup(st.italic, false), bold: false, ..st },
            _ => st,
        },
        MarkdownEventModel::Text(t) => RenderState { out: st.out + text_rendering(st, t), ..st },
        MarkdownEventModel::Html(t) => RenderState { out: st.out + text_rendering(st, t), ..st },
        MarkdownEventModel::FootnoteReference(t) => RenderState { out: st.out + text_rendering(st, t), ..st },
        MarkdownEventModel::Code(t) => RenderState { out: st.out + prefixed_lines(t, seq![' ', ' ']), ..st },
        MarkdownEventModel::SoftBreak => if !st.code_block && !st.blockquote {
            RenderState { out: st.out + seq![' '], ..st }
        } else {
            st
        },
        MarkdownEventModel::HardBreak => RenderState { out: st.out + seq!['\n'], ..st },
        MarkdownEventModel::Rule => RenderState { out: st.out + seq!['\n', '-', '-', '-', '\n'], ..st },
        MarkdownEventModel::TaskListMarker(_) => st,
    }
}

/// Rendering events in order, from an empty text outside any element.
pub open spec fn render_run(events: Seq<MarkdownEventModel>) -> RenderState
    decreases events.len(),
{
    if events.len() == 0 {
        RenderState { out: Seq::empty(), italic: false, bold: false, code_block: false, blockquote: false }
    } else {
        render_step(render_run(events.drop_last()), events.last())
    }
}

/// `s` without its trailing line feeds.
pub open spec fn trim_trailing_newlines(s: Seq<char>) -> Seq<char>
    decreases s.len(),
{
    if s.len() > 0 && s.last() == '\n' {
        trim_trailing_newlines(s.drop_last())
    } else {
        s
    }
}

/// The rendering of markdown events, without trailing line feeds.
pub open spec fn render_markdown(events: Seq<MarkdownEventModel>) -> Seq<char> {
    trim_trailing_newlines(render_run(events).out)
}


// ---------------------------------------------------------------------------
// Rendering

pub proof fn lemma_first_newline_scan(s: Seq<char>, i: int, j: int)
    requires
        0 <= i <= j <= s.len(),
        forall|k: int| i <= k < j ==> s[k] != '\n',
        j == s.len() || s[j] == '\n',
    ensures
        first_newline(s, i) == (if j < s.len() { Some(j) } else { None::<int> }),
    decreases j - i,
{
    if i < j {
        lemma_first_newline_scan(s, i + 1, j);
    }
}

proof fn lemma_first_newline_skip(s: Seq<char>, pos: int, j: int)
    requires
        0 <= pos <= s.len(),
        0 <= j,
    ensures
        first_newline(s.skip(pos), j) == match first_newline(s, pos + j) {
            Some(k) => Some(k - pos),
            None => None::<int>,
        },
    decreases s.len() - pos - j,
{
    if pos + j < s.len() {
        assert(s.skip(pos)[j] == s[pos + j]);
        lemma_first_newline_skip(s, pos, j + 1);
    }
}

proof fn lemma_split_step(s: Seq<char>, pos: int, k: int)
    requires
        0 <= pos <= k <= s.len(),
        forall|x: int| pos <= x < k ==> s[x] != '\n',
        k == s.len() || s[k] == '\n',
    ensures
        k == s.len() ==> split_newlines(s.skip(pos)) == seq![s.subrange(pos, k)],
        k < s.len() ==> split_newlines(s.skip(pos)) == seq![s.subrange(pos, k)] + split_newlines(s.skip(k + 1)),
{
    lemma_first_newline_scan(s, pos, k);
    lemma_first_newline_skip(s, pos, 0);
    let t = s.skip(pos);
    if k == s.len() {
        assert(t =~= s.subrange(pos, k));
    } else {
        assert(t.take(k - pos) =~= s.subrange(pos, k));
        assert(t.skip(k - pos + 1) =~= s.skip(k + 1));
    }
}

/// Appends the chars `chars[a..b]` to `out`.
pub fn push_chars(out: &mut String, chars: &Vec<char>, a: usize, b: usize)
    requires
        a <= b <= chars.len(),
    ensures
        final(out)@ == old(out)@ + chars@.subrange(a as int, b as int),
{
    let ghost start = out@;
    let mut i = a;
    while i < b
        invariant
            a <= i <= b <= chars.len(),
            out@ == start + chars@.subrange(a as int, i as int),
        decreases b - i,
    {
        push_char(out, chars[i]);
        i += 1;
        assert(out@ =~= start + chars@.subrange(a as int, i as int));
    }
}

/// Appends each non-empty line of `t`, after `prefix`, on a line of its own.
fn push_prefixed_lines(out: &mut String, t: &str, prefix: &str)
    ensures
        final(out)@ == old(out)@ + prefixed_lines(t@, prefix@),
{
    let chars = chars_of(t);
    let ghost s = t@;
    let ghost start = out@;
    let mut pos: usize = 0;
    assert(s.skip(0) =~= s);
    let mut done = false;
    while !done
        invariant
            pos <= chars.len(),
            chars@ == s,
            !done ==> start + prefixed_lines(s, prefix@) == out@ + prefixed_lines(s.skip(pos as int), prefix@),
            done ==> out@ == start + prefixed_lines(s, prefix@),
        decreases chars.len() - pos + (if done { 0int } else { 1int }),
    {
        let mut k = pos;
        while k < chars.len() && chars[k] != '\n'
            invariant
                pos <= k <= chars.len(),
                chars@ == s,
                forall|x: int| pos <= x < k ==> s[x] != '\n',
            decreases chars.len() - k,
        {
            k += 1;
        }
        proof {
            lemma_split_step(s, pos as int, k as int);
        }
        let ghost rest = out@;
        if k > pos {
            push_str(out, prefix);
            push_chars(out, &chars, pos, k);
            push_char(out, '\n');
        }
        let ghost piece = s.subrange(pos as int, k as int);
        let ghost added = if piece.len() > 0 { prefix@ + piece + seq!['\n'] } else { Seq::<char>::empty() };
        assert(out@ =~= rest + added);
        if k == chars.len() {
            proof {
                assert(seq![piece].drop_first() =~= Seq::<Seq<char>>::empty());
                assert(seq![piece][0] == piece);
                assert(prefixed_pieces(seq![piece], prefix@) == added + prefixed_pieces(Seq::<Seq<char>>::empty(), prefix@));
                assert(prefixed_pieces(seq![piece], prefix@) =~= added);
                assert(prefixed_lines(s.skip(pos as int), prefix@) == added);
            }
            assert(out@ =~= start + prefixed_lines(s, prefix@));
            done = true;
        } else {
            proof {
                let tail = split_newlines(s.skip(k + 1));
                assert((seq![piece] + tail).drop_first() =~= tail);
                assert((seq![piece] + tail)[0] == piece);
                assert(prefixed_lines(s.skip(pos as int), prefix@) == added + prefixed_lines(s.skip(k + 1), prefix@));
            }
            pos = k + 1;
        }
    }
}

/// The face markup for the current emphasis.
fn push_style(out: &mut String, italic: bool, bold: bool)
    ensures
        final(out)@ == old(out)@ + style_markup(italic, bold),
{
    let ghost start = out@;
    push_char(out, '{');
    if italic || bold {
        push_char(out, '+');
    }
    if italic {
        push_char(out, 'i');
    }
    if bold {
        push_char(out, 'b');
    }
    push_char(out, '}');
    assert(out@ =~= start + style_markup(italic, bold));
}

/// `s` without its trailing line feeds.
fn trim_end_newlines(s: &String) -> (res: String)
    ensures
        res@ == trim_trailing_newlines(s@),
{
    let chars = chars_of(s.as_str());
    let mut n = chars.len();
    assert(s@.take(n as int) =~= s@);
    while n > 0 && chars[n - 1] == '\n'
        invariant
            n <= chars.len(),
            chars@ == s@,
            trim_trailing_newlines(s@) == trim_trailing_newlines(s@.take(n as int)),
        decreases n,
    {
        proof {
            assert(s@.take(n as int).drop_last() =~= s@.take(n - 1));
        }
        n -= 1;
    }
    let mut out = String::new();
    push_chars(&mut out, &chars, 0, n);
    assert(out@ =~= s@.take(n as int));
    out
}

/// Renders markdown events into the text Kakoune shows: headings keep their
/// `#` marks, paragraphs are separated by an empty line, code is indented by
/// two spaces, block quotes are marked with `> `, list items with `- `,
/// emphasis with face markup (`{+i}`, `{+b}`, `{+ib}`, `{}`), and soft line
/// breaks become spaces; trailing line feeds are dropped.
pub fn markdown_events_to_kak(events: &Vec<MarkdownEvent>) -> (res: String)
    ensures
        res@ == render_markdown(event_models(events@)),
{
    let ghost ms = event_models(events@);
    let mut out = String::new();
    let mut in_italic = false;
    let mut in_bold = false;
    let mut in_code_block = false;
    let mut in_blockquote = false;
    let mut i: usize = 0;
    while i < events.len()
        invariant
            i <= events.len(),
            ms == event_models(events@),
            render_run(ms.take(i as int)) == (RenderState {
                out: out@,
                italic: in_italic,
                bold: in_bold,
                code_block: in_code_block,
                blockquote: in_blockquote,
            }),
        decreases events.len() - i,
    {
        proof {
            assert(ms.take(i + 1).drop_last() =~= ms.take(i as int));
            assert(ms.take(i + 1).last() == events@[i as int]@);
        }
        let ghost st = render_run(ms.take(i as int));
        match &events[i] {
            MarkdownEvent::Start(tag) => match tag {
                MarkdownTag::Heading(n) => {
                    let mut k: u32 = 0;
                    while k < *n
                        invariant
                            k <= *n,
                            out@ == st.out + repeat_char('#', k as nat),
                        decreases *n - k,
                    {
                        push_char(&mut out, '#');
                        k += 1;
                    }
                    push_char(&mut out, ' ');
                },
                MarkdownTag::BlockQuote => {
                    in_blockquote = true;
                },
                MarkdownTag::CodeBlock => {
                    in_code_block = true;
                },
                MarkdownTag::Item => {
                    push_char(&mut out, '-');
                    push_char(&mut out, ' ');
                },
                MarkdownTag::Emphasis => {
                    in_italic = true;
                    push_style(&mut out, in_italic, in_bold);
                },
                MarkdownTag::Strong => {
                    in_bold = true;
                    push_style(&mut out, in_italic, in_bold);
                },
                _ => {},
            },
            MarkdownEvent::End(tag) => match tag {
                MarkdownTag::Paragraph => {
                    push_char(&mut out, '\n');
                    push_char(&mut out, '\n');
                },
                MarkdownTag::Heading(_) => {
                    push_char(&mut out, '\n');
                },
                MarkdownTag::BlockQuote => {
                    in_blockquote = false;
                },
                MarkdownTag::CodeBlock => {
                    in_code_block = false;
                    push_char(&mut out, '\n');
                },
                MarkdownTag::Emphasis => {
                    in_italic = false;
                    push_style(&mut out, in_italic, in_bold);
                },
                MarkdownTag::Strong => {
                    in_bold = false;
                    push_style(&mut out, in_italic, in_bold);
                },
                _ => {},
            },
            MarkdownEvent::Text(t) | MarkdownEvent::Html(t) | MarkdownEvent::FootnoteReference(t) => {
                if in_code_block {
                    proof { reveal_strlit("  "); assert("  "@ =~= seq![' ', ' ']); }
                    push_prefixed_lines(&mut out, t.as_str(), "  ");
                } else if in_blockquote {
                    proof { reveal_strlit("> "); assert("> "@ =~= seq!['>', ' ']); }
                    push_prefixed_lines(&mut out, t.as_str(), "> ");
                } else {
                    push_str(&mut out, t.as_str());
                }
            },
            MarkdownEvent::Code(t) => {
                proof { reveal_strlit("  "); assert("  "@ =~= seq![' ', ' ']); }
                push_prefixed_lines(&mut out, t.as_str(), "  ");
            },
            MarkdownEvent::SoftBreak => {
                if !in_code_block && !in_blockquote {
                    push_char(&mut out, ' ');
                }
            },
            MarkdownEvent::HardBreak => {
                push_char(&mut out, '\n');
            },
            MarkdownEvent::Rule => {
                push_char(&mut out, '\n');
                push_char(&mut out, '-');
                push_char(&mut out, '-');
                push_char(&mut out, '-');
                push_char(&mut out, '\n');
            },
            MarkdownEvent::TaskListMarker(_) => {},
        }
        proof {
            assert(render_run(ms.take(i + 1)).out =~= out@);
        }
        i += 1;
    }
    assert(ms.take(i as int) =~= ms);
    trim_end_newlines(&out)
}

/// Renders markdown text into the text Kakoune shows; see `markdown_events_to_kak`.
pub fn markdown_to_kak(text: &str) -> (res: String)
    ensures
        res@ == render_markdown(markdown_events(text@)),
{
    let events = parse_markdown(text);
    markdown_events_to_kak(&events)
}


/// Rendered markdown never ends with a line feed.
pub proof fn lemma_render_markdown_no_trailing_newline(events: Seq<MarkdownEventModel>)
    ensures
        render_markdown(events).len() > 0 ==> render_markdown(events).last() != '\n',
{
    lemma_trim_trailing_newlines(render_run(events).out);
}

proof fn lemma_trim_trailing_newlines(s: Seq<char>)
    ensures
        trim_trailing_newlines(s).len() > 0 ==> trim_trailing_newlines(s).last() != '\n',
    decreases s.len(),
{
    if s.len() > 0 && s.last() == '\n' {
        lemma_trim_trailing_newlines(s.drop_last());
    }
}


/// Rendering an event only adds to the text rendered so far.
proof fn lemma_render_step_extends(st: RenderState, e: MarkdownEventModel)
    ensures
        st.out.len() <= render_step(st, e).out.len(),
        render_step(st, e).out.take(st.out.len() as int) == st.out,
{
    let o = render_step(st, e).out;
    assert(o.take(st.out.len() as int) =~= st.out);
}

/// Rendering more events only adds to the text rendered so far.
proof fn lemma_render_run_extends(a: Seq<MarkdownEventModel>, b: Seq<MarkdownEventModel>)
    ensures
        render_run(a).out.len() <= render_run(a + b).out.len(),
        render_run(a + b).out.take(render_run(a).out.len() as int) == render_run(a).out,
    decreases b.len(),
{
    if b.len() == 0 {
        assert(a + b =~= a);
        assert(render_run(a).out.take(render_run(a).out.len() as int) =~= render_run(a).out);
    } else {
        let b1 = b.drop_last();
        lemma_render_run_extends(a, b1);
        assert((a + b).drop_last() =~= a + b1);
        let st = render_run(a + b1);
        lemma_render_step_extends(st, b.last());
        let n = render_run(a).out.len() as int;
        let o = render_run(a + b).out;
        assert(o.take(n) =~= st.out.take(n)) by {
            assert forall|i: int| 0 <= i < n implies o[i] == st.out[i] by {
                assert(o.take(st.out.len() as int)[i] == st.out[i]);
            }
        }
    }
}

/// Trimming trailing line feeds keeps a prefix of the text, and keeps every
/// char that is not a line feed.
proof fn lemma_trim_keeps(s: Seq<char>, m: int)
    requires
        0 <= m < s.len(),
        s[m] != '\n',
    ensures
        m < trim_trailing_newlines(s).len() <= s.len(),
        trim_trailing_newlines(s) == s.take(trim_trailing_newlines(s).len() as int),
    decreases s.len(),
{
    if s.len() > 0 && s.last() == '\n' {
        assert(s.drop_last()[m] == s[m]);
        lemma_trim_keeps(s.drop_last(), m);
        let t = trim_trailing_newlines(s.drop_last());
        assert(s.drop_last().take(t.len() as int) =~= s.take(t.len() as int));
    } else {
        assert(s.take(s.len() as int) =~= s);
    }
}

/// A thematic break renders as a line `---`: wherever a `Rule` event stands,
/// the rendering holds a line feed, `---` and a line feed at the point the
/// events before it got to (the last line feed is dropped with the trailing
/// ones only when nothing follows).
pub proof fn lemma_rule_renders_as_line(before: Seq<MarkdownEventModel>, after: Seq<MarkdownEventModel>)
    ensures
        ({
            let n = render_run(before).out.len() as int;
            let all = before.push(MarkdownEventModel::Rule) + after;
            &&& render_run(all).out.subrange(n, n + 5) == seq!['\n', '-', '-', '-', '\n']
            &&& render_markdown(all).subrange(n, n + 4) == seq!['\n', '-', '-', '-']
        }),
{
    let n = render_run(before).out.len() as int;
    let with_rule = before.push(MarkdownEventModel::Rule);
    let all = with_rule + after;
    assert(render_run(with_rule).out == render_run(before).out + seq!['\n', '-', '-', '-', '\n']) by {
        assert(with_rule.drop_last() =~= before);
    }
    lemma_render_run_extends(with_rule, after);
    let o = render_run(all).out;
    let r = render_run(with_rule).out;
    assert(o.subrange(n, n + 5) =~= seq!['\n', '-', '-', '-', '\n']) by {
        assert forall|i: int| n <= i < n + 5 implies o[i] == r[i] by {
            assert(o.take(r.len() as int)[i] == r[i]);
        }
    }
    assert(o[n + 3] == '-');
    lemma_trim_keeps(o, n + 3);
    let t = trim_trailing_newlines(o);
    assert(t.subrange(n, n + 4) =~= seq!['\n', '-', '-', '-']) by {
        assert forall|i: int| n <= i < n + 4 implies t[i] == o[i] by {
            assert(o.take(t.len() as int)[i] == o[i]);
        }
    }
}

} // verus!
