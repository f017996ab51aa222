//! Going to definitions and the like: the locations that servers answer,
//! the same answer of two servers taken once, and the jump to the one
//! location or the list of them all.

use vstd::prelude::*;
use ropey::Rope;
use crate::language_features::object::{edit_at_range, edit_at_range_text};
use crate::position::{lsp_range_to_kakoune, range_defined, range_to_kakoune};
use crate::rope::{rope_len_lines, rope_line, rope_lines, slice_chars, slice_to_string};
use crate::strings::{decimal, push_char, push_decimal, push_str, str_eq};
use crate::types::{KakouneRange, OffsetEncoding, Range};
use crate::util::{editor_quote, editor_quote_spec, path_strip_prefix, short_file_path};

verus! {

/// A location in a file: its URI, the file's path, and a range in it.
#[derive(Clone, Debug)]
pub struct Location {
    pub uri: String,
    pub path: String,
    pub range: Range,
}

/// A link to a location: the range it goes from, if given, and its target
/// (URI, path, the whole range, and the range to select).
#[derive(Clone, Debug)]
pub struct LocationLink {
    pub origin_selection_range: Option<Range>,
    pub target_uri: String,
    pub target_path: String,
    pub target_range: Range,
    pub target_selection_range: Range,
}

/// What a server answers: one location, several, or links.
#[derive(Clone, Debug)]
pub enum GotoResponse {
    Scalar(Location),
    Array(Vec<Location>),
    Link(Vec<LocationLink>),
}

/// A location as values.
pub struct LocationView {
    pub uri: Seq<char>,
    pub path: Seq<char>,
    pub range: Range,
}

/// A link as values.
pub struct LinkView {
    pub origin_selection_range: Option<Range>,
    pub target_uri: Seq<char>,
    pub target_path: Seq<char>,
    pub target_range: Range,
    pub target_selection_range: Range,
}

/// An answer as values.
pub enum ResponseView {
    Scalar(LocationView),
    Array(Seq<LocationView>),
    Link(Seq<LinkView>),
}

pub open spec fn location_view(l: Location) -> LocationView {
    LocationView { uri: l.uri@, path: l.path@, range: l.range }
}

pub open spec fn link_view(l: LocationLink) -> LinkView {
    LinkView {
        origin_selection_range: l.origin_selection_range,
        target_uri: l.target_uri@,
        target_path: l.target_path@,
        target_range: l.target_range,
        target_selection_range: l.target_selection_range,
    }
}

pub open spec fn response_view(r: GotoResponse) -> ResponseView {
    match r {
        GotoResponse::Scalar(l) => ResponseView::Scalar(location_view(l)),
        GotoResponse::Array(ls) => ResponseView::Array(ls@.map_values(|l: Location| location_view(l))),
        GotoResponse::Link(ls) => ResponseView::Link(ls@.map_values(|l: LocationLink| link_view(l))),
    }
}

/// The answers that servers gave, each once: an answer equal to one that
/// an earlier server gave is dropped (several servers may answer alike).
pub open spec fn distinct_responses(rs: Seq<(usize, Option<ResponseView>)>) -> Seq<(usize, ResponseView)>
    decreases rs.len(),
{
    if rs.len() == 0 {
        Seq::empty()
    } else {
        let rest = distinct_responses(rs.drop_last());
        match rs.last().1 {
            None => rest,
            Some(r) => if rest.map_values(|x: (usize, ResponseView)| x.1).contains(r) {
                rest
            } else {
                rest.push((rs.last().0, r))
            },
        }
    }
}

/// The locations of an answer: a link goes to its target's selection range.
pub open spec fn response_locations(server: usize, r: ResponseView) -> Seq<(usize, LocationView)> {
    match r {
        ResponseView::Scalar(l) => seq![(server, l)],
        ResponseView::Array(ls) => ls.map_values(|l: LocationView| (server, l)),
        ResponseView::Link(ls) => ls.map_values(
            |l: LinkView| (server, LocationView { uri: l.target_uri, path: l.target_path, range: l.target_selection_range }),
        ),
    }
}

/// The locations of the answers, in order.
pub open spec fn all_locations(rs: Seq<(usize, ResponseView)>) -> Seq<(usize, LocationView)>
    decreases rs.len(),
{
    if rs.len() == 0 {
        Seq::empty()
    } else {
        all_locations(rs.drop_last()) + response_locations(rs.last().0, rs.last().1)
    }
}

/// The answers of servers, as values.
pub open spec fn responses_view(rs: Seq<(usize, Option<GotoResponse>)>) -> Seq<(usize, Option<ResponseView>)> {
    rs.map_values(|x: (usize, Option<GotoResponse>)| (x.0, match x.1 { Some(r) => Some(response_view(r)), None => None }))
}

fn same_range(a: &Range, b: &Range) -> (res: bool)
    ensures
        res == (*a == *b),
{
    a.start.line == b.start.line && a.start.character == b.start.character && a.end.line == b.end.line
        && a.end.character == b.end.character
}

fn same_location(a: &Location, b: &Location) -> (res: bool)
    ensures
        res == (location_view(*a) == location_view(*b)),
{
    str_eq(a.uri.as_str(), b.uri.as_str()) && str_eq(a.path.as_str(), b.path.as_str()) && same_range(&a.range, &b.range)
}

fn same_link(a: &LocationLink, b: &LocationLink) -> (res: bool)
    ensures
        res == (link_view(*a) == link_view(*b)),
{
    let origins = match (&a.origin_selection_range, &b.origin_selection_range) {
        (Some(x), Some(y)) => same_range(x, y),
        (None, None) => true,
        _ => false,
    };
    origins && str_eq(a.target_uri.as_str(), b.target_uri.as_str()) && str_eq(a.target_path.as_str(), b.target_path.as_str())
        && same_range(&a.target_range, &b.target_range) && same_range(&a.target_selection_range, &b.target_selection_range)
}

/// Whether two answers are equal, as values.
fn same_response(a: &GotoResponse, b: &GotoResponse) -> (res: bool)
    ensures
        res == (response_view(*a) == response_view(*b)),
{
    match (a, b) {
        (GotoResponse::Scalar(x), GotoResponse::Scalar(y)) => same_location(x, y),
        (GotoResponse::Array(xs), GotoResponse::Array(ys)) => {
            if xs.len() != ys.len() {
                assert(xs@.map_values(|l: Location| location_view(l)).len() != ys@.map_values(|l: Location| location_view(l)).len());
                return false;
            }
            let mut k: usize = 0;
            while k < xs.len()
                invariant
                    k <= xs.len(),
                    xs.len() == ys.len(),
                    response_view(*a) == ResponseView::Array(xs@.map_values(|l: Location| location_view(l))),
                    response_view(*b) == ResponseView::Array(ys@.map_values(|l: Location| location_view(l))),
                    forall|j: int| 0 <= j < k ==> location_view(#[trigger] xs@[j]) == location_view(ys@[j]),
                decreases xs.len() - k,
            {
                if !same_location(&xs[k], &ys[k]) {
                    let ghost mx = xs@.map_values(|l: Location| location_view(l));
                    let ghost my = ys@.map_values(|l: Location| location_view(l));
                    assert(mx[k as int] != my[k as int]);
                    assert(mx != my);
                    assert(response_view(*a) == ResponseView::Array(mx));
                    assert(response_view(*b) == ResponseView::Array(my));
                    return false;
                }
                k = k + 1;
            }
            assert(xs@.map_values(|l: Location| location_view(l)) =~= ys@.map_values(|l: Location| location_view(l)));
            true
        },
        (GotoResponse::Link(xs), GotoResponse::Link(ys)) => {
            if xs.len() != ys.len() {
                assert(xs@.map_values(|l: LocationLink| link_view(l)).len() != ys@.map_values(|l: LocationLink| link_view(l)).len());
                return false;
            }
            let mut k: usize = 0;
            while k < xs.len()
                invariant
                    k <= xs.len(),
                    xs.len() == ys.len(),
                    response_view(*a) == ResponseView::Link(xs@.map_values(|l: LocationLink| link_view(l))),
                    response_view(*b) == ResponseView::Link(ys@.map_values(|l: LocationLink| link_view(l))),
                    forall|j: int| 0 <= j < k ==> link_view(#[trigger] xs@[j]) == link_view(ys@[j]),
                decreases xs.len() - k,
            {
                if !same_link(&xs[k], &ys[k]) {
                    let ghost mx = xs@.map_values(|l: LocationLink| link_view(l));
                    let ghost my = ys@.map_values(|l: LocationLink| link_view(l));
                    assert(mx[k as int] != my[k as int]);
                    assert(mx != my);
                    assert(response_view(*a) == ResponseView::Link(mx));
                    assert(response_view(*b) == ResponseView::Link(my));
                    return false;
                }
                k = k + 1;
            }
            assert(xs@.map_values(|l: LocationLink| link_view(l)) =~= ys@.map_values(|l: LocationLink| link_view(l)));
            true
        },
        _ => false,
    }
}

/// A copy of a location.
fn copy_location(l: &Location) -> (res: Location)
    ensures
        location_view(res) == location_view(*l),
{
    Location { uri: l.uri.clone(), path: l.path.clone(), range: l.range }
}

/// The locations of the servers' answers, each answer taken once; see
/// `distinct_responses` and `all_locations`.
pub fn goto_locations_of(responses: &Vec<(usize, Option<GotoResponse>)>) -> (res: Vec<(usize, Location)>)
    ensures
        res@.map_values(|x: (usize, Location)| (x.0, location_view(x.1))) == all_locations(
            distinct_responses(responses_view(responses@)),
        ),
{
    let ghost rv = responses_view(responses@);
    // The answers kept, by their index among the responses.
    let mut kept: Vec<usize> = Vec::new();
    let mut i: usize = 0;
    while i < responses.len()
        invariant
            i <= responses.len(),
            rv == responses_view(responses@),
            forall|t: int| 0 <= t < kept.len() ==> #[trigger] kept@[t] < i && responses@[kept@[t] as int].1 is Some,
            distinct_responses(rv.take(i as int)) == kept@.map_values(
                |k: usize| (responses@[k as int].0, response_view(responses@[k as int].1.unwrap())),
            ),
        decreases responses.len() - i,
    {
        let ghost before = kept@.map_values(|k: usize| (responses@[k as int].0, response_view(responses@[k as int].1.unwrap())));
        proof {
            assert(rv.take(i + 1).drop_last() =~= rv.take(i as int));
        }
        match &responses[i].1 {
            None => {},
            Some(r) => {
                let mut seen = false;
                let mut t: usize = 0;
                while t < kept.len()
                    invariant
                        t <= kept.len(),
                        i < responses.len(),
                        forall|t: int| 0 <= t < kept.len() ==> #[trigger] kept@[t] < i && responses@[kept@[t] as int].1 is Some,
                        before == kept@.map_values(|k: usize| (responses@[k as int].0, response_view(responses@[k as int].1.unwrap()))),
                        responses@[i as int].1 == Some(*r),
                        seen == before.take(t as int).map_values(|x: (usize, ResponseView)| x.1).contains(response_view(*r)),
                    decreases kept.len() - t,
                {
                    let other = match &responses[kept[t]].1 {
                        Some(o) => o,
                        None => r,
                    };
                    proof {
                        let a = before.take(t as int).map_values(|x: (usize, ResponseView)| x.1);
                        let b = before.take(t + 1).map_values(|x: (usize, ResponseView)| x.1);
                        assert(b =~= a.push(response_view(*other)));
                        if b.contains(response_view(*r)) && response_view(*other) != response_view(*r) {
                            let x = choose|x: int| 0 <= x < b.len() && b[x] == response_view(*r);
                            assert(a[x] == response_view(*r));
                        }
                        if a.contains(response_view(*r)) {
                            let x = choose|x: int| 0 <= x < a.len() && a[x] == response_view(*r);
                            assert(b[x] == response_view(*r));
                        }
                        if response_view(*other) == response_view(*r) {
                            assert(b[t as int] == response_view(*r));
                        }
                    }
                    if same_response(other, r) {
                        seen = true;
                    }
                    t = t + 1;
                }
                assert(before.take(t as int) =~= before);
                if !seen {
                    kept.push(i);
                    proof {
                        assert(kept@.map_values(|k: usize| (responses@[k as int].0, response_view(responses@[k as int].1.unwrap())))
                            =~= before.push((responses@[i as int].0, response_view(*r))));
                    }
                }
            },
        }
        proof {
            assert(kept@.map_values(|k: usize| (responses@[k as int].0, response_view(responses@[k as int].1.unwrap())))
                == distinct_responses(rv.take(i + 1)));
        }
        i = i + 1;
    }
    assert(rv.take(i as int) =~= rv);
    let ghost ks = kept@.map_values(|k: usize| (responses@[k as int].0, response_view(responses@[k as int].1.unwrap())));
    let mut out: Vec<(usize, Location)> = Vec::new();
    let mut t: usize = 0;
    while t < kept.len()
        invariant
            t <= kept.len(),
            forall|t: int| 0 <= t < kept.len() ==> #[trigger] kept@[t] < responses.len() && responses@[kept@[t] as int].1 is Some,
            ks == kept@.map_values(|k: usize| (responses@[k as int].0, response_view(responses@[k as int].1.unwrap()))),
            out@.map_values(|x: (usize, Location)| (x.0, location_view(x.1))) == all_locations(ks.take(t as int)),
        decreases kept.len() - t,
    {
        let k = kept[t];
        let server = responses[k].0;
        let ghost start = out@.map_values(|x: (usize, Location)| (x.0, location_view(x.1)));
        proof {
            assert(ks.take(t + 1).drop_last() =~= ks.take(t as int));
        }
        match &responses[k].1 {
            None => {},
            Some(GotoResponse::Scalar(l)) => {
                out.push((server, copy_location(l)));
                assert(out@.map_values(|x: (usize, Location)| (x.0, location_view(x.1))) =~= start + response_locations(
                    server,
                    response_view(GotoResponse::Scalar(*l)),
                ));
            },
            Some(GotoResponse::Array(ls)) => {
                let mut j: usize = 0;
                while j < ls.len()
                    invariant
                        j <= ls.len(),
                        out@.map_values(|x: (usize, Location)| (x.0, location_view(x.1))) == start + ls@.take(j as int).map_values(
                            |l: Location| (server, location_view(l)),
                        ),
                    decreases ls.len() - j,
                {
                    let ghost o = out@;
                    out.push((server, copy_location(&ls[j])));
                    assert(out@.map_values(|x: (usize, Location)| (x.0, location_view(x.1))) =~= o.map_values(
                        |x: (usize, Location)| (x.0, location_view(x.1)),
                    ).push((server, location_view(ls@[j as int]))));
                    assert(ls@.take(j + 1).map_values(|l: Location| (server, location_view(l))) =~= ls@.take(j as int).map_values(
                        |l: Location| (server, location_view(l)),
                    ).push((server, location_view(ls@[j as int]))));
                    j = j + 1;
                }
                assert(ls@.take(j as int) =~= ls@);
                assert(ls@.map_values(|l: Location| (server, location_view(l))) =~= ls@.map_values(|l: Location| location_view(l)).map_values(
                    |l: LocationView| (server, l),
                ));
            },
            Some(GotoResponse::Link(ls)) => {
                let mut j: usize = 0;
                while j < ls.len()
                    invariant
                        j <= ls.len(),
                        out@.map_values(|x: (usize, Location)| (x.0, location_view(x.1))) == start + ls@.take(j as int).map_values(
                            |l: LocationLink| (server, LocationView { uri: l.target_uri@, path: l.target_path@, range: l.target_selection_range }),
                        ),
                    decreases ls.len() - j,
                {
                    let ghost o = out@;
                    let l = &ls[j];
                    let loc = Location { uri: l.target_uri.clone(), path: l.target_path.clone(), range: l.target_selection_range };
                    out.push((server, loc));
                    assert(out@.map_values(|x: (usize, Location)| (x.0, location_view(x.1))) =~= o.map_values(
                        |x: (usize, Location)| (x.0, location_view(x.1)),
                    ).push((server, location_view(loc))));
                    assert(ls@.take(j + 1).map_values(
                        |l: LocationLink| (server, LocationView { uri: l.target_uri@, path: l.target_path@, range: l.target_selection_range }),
                    ) =~= ls@.take(j as int).map_values(
                        |l: LocationLink| (server, LocationView { uri: l.target_uri@, path: l.target_path@, range: l.target_selection_range }),
                    ).push((server, location_view(loc))));
                    j = j + 1;
                }
                assert(ls@.take(j as int) =~= ls@);
                assert(ls@.map_values(
                    |l: LocationLink| (server, LocationView { uri: l.target_uri@, path: l.target_path@, range: l.target_selection_range }),
                ) =~= ls@.map_values(|l: LocationLink| link_view(l)).map_values(
                    |l: LinkView| (server, LocationView { uri: l.target_uri, path: l.target_path, range: l.target_selection_range }),
                ));
            },
        }
        t = t + 1;
    }
    assert(ks.take(t as int) =~= ks);
    out
}


// ---------------------------------------------------------------------------
// Jumping

/// The command that opens a file at a range, in the jump client if there is
/// one.
pub open spec fn jump_text(path: Seq<char>, range: KakouneRange) -> Seq<char> {
    "evaluate-commands -try-client %opt{jumpclient} -- "@ + editor_quote_spec(edit_at_range_text(path, range, true))
}

/// The command that jumps to the one location found; see `jump_text`.
pub fn goto_location(path: &str, range: &Range, text: &Rope, offset_encoding: OffsetEncoding) -> (res: String)
    requires
        range_defined(*range, rope_lines(*text), offset_encoding),
    ensures
        res@ == jump_text(path@, range_to_kakoune(*range, rope_lines(*text), offset_encoding)),
{
    let r = lsp_range_to_kakoune(range, text, offset_encoding);
    let edit = edit_at_range(path, r, true);
    let mut out = String::new();
    push_str(&mut out, "evaluate-commands -try-client %opt{jumpclient} -- ");
    let q = editor_quote(edit.as_str());
    push_str(&mut out, q.as_str());
    assert(out@ =~= jump_text(path@, r));
    out
}

/// A line of the list of locations: `path:line:column:` and the text of the
/// line (with its line break); nothing when the file could not be read or
/// has no such line.
pub open spec fn choice_line(shown: Seq<char>, range: Range, contents: Option<Rope>, enc: OffsetEncoding) -> Seq<char> {
    match contents {
        None => Seq::empty(),
        Some(t) => if range.start.line >= rope_lines(t).len() {
            Seq::empty()
        } else {
            let pos = range_to_kakoune(range, rope_lines(t), enc).start;
            shown + seq![':'] + decimal(pos.line as nat) + seq![':'] + decimal(pos.column as nat) + seq![':']
                + rope_lines(t)[range.start.line as int]
        },
    }
}

/// The lines of the first `n` locations, one after the other.
pub open spec fn choice_lines(
    shown: Seq<Seq<char>>,
    locations: Seq<(usize, Location)>,
    contents: Seq<Option<Rope>>,
    encs: Seq<OffsetEncoding>,
    n: int,
) -> Seq<char>
    decreases n,
{
    if n <= 0 {
        Seq::empty()
    } else {
        choice_lines(shown, locations, contents, encs, n - 1) + choice_line(
            shown[n - 1],
            locations[n - 1].1.range,
            contents[n - 1],
            encs[n - 1],
        )
    }
}

/// The command that lists the locations to choose from, relative to the
/// project root.
pub open spec fn choices_text(
    root: Seq<char>,
    shown: Seq<Seq<char>>,
    locations: Seq<(usize, Location)>,
    contents: Seq<Option<Rope>>,
    encs: Seq<OffsetEncoding>,
) -> Seq<char> {
    "lsp-show-goto-choices "@ + editor_quote_spec(root) + seq![' '] + editor_quote_spec(
        choice_lines(shown, locations, contents, encs, locations.len() as int),
    )
}

/// Whether the locations can be listed: for each, the contents of its file
/// (if it could be read) and its server's offset encoding, and its range
/// convertible where the file was read.
pub open spec fn choices_listable(locations: Seq<(usize, Location)>, contents: Seq<Option<Rope>>, encs: Seq<OffsetEncoding>) -> bool {
    &&& contents.len() == locations.len()
    &&& encs.len() == locations.len()
    &&& forall|k: int|
        0 <= k < locations.len() ==> (#[trigger] contents[k] matches Some(t) ==> range_defined(
            locations[k].1.range,
            rope_lines(t),
            encs[k],
        ))
}

/// The command that lists the locations, each path shown as `shown_paths`
/// says; see `choices_text`.
pub fn goto_choices(
    main_root: &str,
    shown_paths: &Vec<String>,
    locations: &Vec<(usize, Location)>,
    contents: &Vec<Option<Rope>>,
    encodings: &Vec<OffsetEncoding>,
) -> (res: String)
    requires
        shown_paths.len() == locations.len(),
        choices_listable(locations@, contents@, encodings@),
    ensures
        res@ == choices_text(main_root@, shown_paths@.map_values(|s: String| s@), locations@, contents@, encodings@),
{
    let ghost shown = shown_paths@.map_values(|s: String| s@);
    let mut lines = String::new();
    let mut k: usize = 0;
    while k < locations.len()
        invariant
            k <= locations.len(),
            shown_paths.len() == locations.len(),
            shown == shown_paths@.map_values(|s: String| s@),
            choices_listable(locations@, contents@, encodings@),
            lines@ == choice_lines(shown, locations@, contents@, encodings@, k as int),
        decreases locations.len() - k,
    {
        let ghost start = lines@;
        match &contents[k] {
            None => {},
            Some(t) => {
                let range = locations[k].1.range;
                let n = rope_len_lines(t);
                if (range.start.line as usize) < n {
                    proof {
                        assert(contents@[k as int] matches Some(t) ==> range_defined(locations@[k as int].1.range, rope_lines(t), encodings@[k as int]));
                    }
                    let pos = lsp_range_to_kakoune(&range, t, encodings[k]).start;
                    push_str(&mut lines, shown_paths[k].as_str());
                    push_char(&mut lines, ':');
                    push_decimal(&mut lines, pos.line as u64);
                    push_char(&mut lines, ':');
                    push_decimal(&mut lines, pos.column as u64);
                    push_char(&mut lines, ':');
                    let line = rope_line(t, range.start.line as usize);
                    let line_text = slice_to_string(&line);
                    push_str(&mut lines, line_text.as_str());
                }
            },
        }
        assert(lines@ =~= start + choice_line(shown[k as int], locations@[k as int].1.range, contents@[k as int], encodings@[k as int]));
        k = k + 1;
    }
    let mut out = String::new();
    push_str(&mut out, "lsp-show-goto-choices ");
    let r = editor_quote(main_root);
    push_str(&mut out, r.as_str());
    push_char(&mut out, ' ');
    let q = editor_quote(lines.as_str());
    push_str(&mut out, q.as_str());
    assert(out@ =~= choices_text(main_root@, shown, locations@, contents@, encodings@));
    out
}

/// A path relative to the project root where it lies inside it.
pub open spec fn shown_path(path: Seq<char>, root: Seq<char>) -> Seq<char> {
    match path_strip_prefix(path, root) {
        Some(r) => r,
        None => path,
    }
}

/// The command that lists the locations, each path relative to the project
/// root where it lies inside it; see `goto_choices`.
pub fn goto_locations(
    main_root: &str,
    locations: &Vec<(usize, Location)>,
    contents: &Vec<Option<Rope>>,
    encodings: &Vec<OffsetEncoding>,
) -> (res: String)
    requires
        choices_listable(locations@, contents@, encodings@),
    ensures
        res@ == choices_text(
            main_root@,
            locations@.map_values(|x: (usize, Location)| shown_path(x.1.path@, main_root@)),
            locations@,
            contents@,
            encodings@,
        ),
{
    let mut shown: Vec<String> = Vec::new();
    let mut k: usize = 0;
    while k < locations.len()
        invariant
            k <= locations.len(),
            shown@.map_values(|s: String| s@) == locations@.take(k as int).map_values(
                |x: (usize, Location)| shown_path(x.1.path@, main_root@),
            ),
        decreases locations.len() - k,
    {
        let p = short_file_path(locations[k].1.path.as_str(), main_root);
        let mut s = String::new();
        push_str(&mut s, p);
        let ghost before = shown@;
        shown.push(s);
        proof {
            assert(shown@.map_values(|s: String| s@) =~= before.map_values(|s: String| s@).push(s@));
            assert(locations@.take(k + 1).map_values(|x: (usize, Location)| shown_path(x.1.path@, main_root@))
                =~= locations@.take(k as int).map_values(|x: (usize, Location)| shown_path(x.1.path@, main_root@)).push(
                shown_path(locations@[k as int].1.path@, main_root@),
            ));
        }
        k = k + 1;
    }
    assert(locations@.take(k as int) =~= locations@);
    goto_choices(main_root, &shown, locations, contents, encodings)
}

} // verus!
