//! Choosing the Kakoune face for a server's semantic highlighting scopes.

use vstd::prelude::*;
use vstd::utf8::{encode_utf8, decode_utf8, encode_utf8_decode_utf8, is_char_boundary};
use crate::strings::chars_of;

verus! {

/// The char indices of the dots in a scope name, in order.
pub open spec fn dot_positions(s: Seq<char>) -> Seq<int>
    decreases s.len(),
{
    if s.len() == 0 {
        Seq::empty()
    } else {
        dot_positions(s.drop_last()) + (if s.last() == '.' { seq![s.len() - 1] } else { Seq::empty() })
    }
}

/// The name before a dot: the scope's text cut at the byte offset equal to
/// the dot's char index (the text before the dot, when the scope is ASCII).
pub open spec fn prefix_at(scope: Seq<char>, i: int) -> Seq<char> {
    decode_utf8(encode_utf8(scope).take(i))
}

/// Every cut that `prefix_at` makes lies on a char boundary.
pub open spec fn scope_cuts_defined(scope: Seq<char>) -> bool {
    forall|k: int| 0 <= k < dot_positions(scope).len()
        ==> is_char_boundary(encode_utf8(scope), #[trigger] dot_positions(scope)[k])
}

/// The face of the first entry of `faces` whose scope is `key`.
pub open spec fn face_lookup(faces: Seq<(Seq<char>, Seq<char>)>, key: Seq<char>) -> Option<Seq<char>>
    decreases faces.len(),
{
    if faces.len() == 0 {
        None
    } else if faces[0].0 == key {
        Some(faces[0].1)
    } else {
        face_lookup(faces.drop_first(), key)
    }
}

/// Among the names before the first `m` dots of a scope, the last (longest)
/// one that has a face: its rank among the dots, and the face.
pub open spec fn find_face_upto(faces: Seq<(Seq<char>, Seq<char>)>, scope: Seq<char>, m: int) -> Option<(int, Seq<char>)>
    decreases m,
{
    if m <= 0 {
        None
    } else {
        match face_lookup(faces, prefix_at(scope, dot_positions(scope)[m - 1])) {
            Some(f) => Some((m - 1, f)),
            None => find_face_upto(faces, scope, m - 1),
        }
    }
}

/// The face of the longest dotted prefix of a scope that has one, with the
/// prefix's rank among the dots.
pub open spec fn find_face(faces: Seq<(Seq<char>, Seq<char>)>, scope: Seq<char>) -> Option<(int, Seq<char>)> {
    find_face_upto(faces, scope, dot_positions(scope).len() as int)
}

/// Among scopes, the found face of highest rank; the last one among equals.
pub open spec fn best_face(faces: Seq<(Seq<char>, Seq<char>)>, scopes: Seq<Seq<char>>) -> Option<(int, Seq<char>)>
    decreases scopes.len(),
{
    if scopes.len() == 0 {
        None
    } else {
        let before = best_face(faces, scopes.drop_last());
        match find_face(faces, scopes.last()) {
            None => before,
            Some((n, f)) => match before {
                Some((m, g)) => if n >= m { Some((n, f)) } else { Some((m, g)) },
                None => Some((n, f)),
            },
        }
    }
}

/// The face for each group of scopes: the best face, or empty text when none is found.
pub open spec fn scope_faces(faces: Seq<(Seq<char>, Seq<char>)>, groups: Seq<Seq<Seq<char>>>) -> Seq<Seq<char>> {
    groups.map_values(|g: Seq<Seq<char>>| match best_face(faces, g) {
        Some((_, f)) => f,
        None => Seq::empty(),
    })
}

/// The view of face entries.
pub open spec fn faces_view(faces: Seq<(String, String)>) -> Seq<(Seq<char>, Seq<char>)> {
    faces.map_values(|p: (String, String)| (p.0@, p.1@))
}

/// The view of groups of scopes.
pub open spec fn groups_view(scopes: Seq<Vec<String>>) -> Seq<Seq<Seq<char>>> {
    scopes.map_values(|g: Vec<String>| g@.map_values(|s: String| s@))
}

/// The face of the first entry whose scope is `key`.
pub fn lookup(faces: &Vec<(String, String)>, key: &String) -> (res: Option<String>)
    ensures
        match res {
            Some(f) => face_lookup(faces_view(faces@), key@) == Some(f@),
            None => face_lookup(faces_view(faces@), key@) is None,
        },
{
    let ghost fv = faces_view(faces@);
    let mut i: usize = 0;
    assert(fv.skip(0) =~= fv);
    while i < faces.len()
        invariant
            i <= faces.len(),
            fv == faces_view(faces@),
            face_lookup(fv, key@) == face_lookup(fv.skip(i as int), key@),
        decreases faces.len() - i,
    {
        proof {
            assert(fv.skip(i as int)[0] == (faces@[i as int].0@, faces@[i as int].1@));
            assert(fv.skip(i as int).drop_first() =~= fv.skip(i + 1));
        }
        if faces[i].0 == *key {
            return Some(faces[i].1.clone());
        }
        i += 1;
    }
    None
}

/// The face of the longest dotted prefix of `scope` that has one, with the
/// prefix's rank among the dots.
fn find_scope_face(faces: &Vec<(String, String)>, scope: &String) -> (res: Option<(usize, String)>)
    requires
        scope_cuts_defined(scope@),
    ensures
        match res {
            Some((n, f)) => find_face(faces_view(faces@), scope@) == Some((n as int, f@)),
            None => find_face(faces_view(faces@), scope@) is None,
        },
{
    let ghost s = scope@;
    let ghost dots = dot_positions(s);
    let chars = chars_of(scope.as_str());
    let mut found: Option<(usize, String)> = None;
    let mut n: usize = 0;
    let mut i: usize = 0;
    while i < chars.len()
        invariant
            i <= chars.len(),
            chars@ == s,
            s == scope@,
            dots == dot_positions(s),
            scope_cuts_defined(s),
            n as int == dot_positions(s.take(i as int)).len(),
            dot_positions(s.take(i as int)) =~= dots.take(n as int),
            n <= dots.len(),
            n <= i,
            match found {
                Some((m, f)) => find_face_upto(faces_view(faces@), s, n as int) == Some((m as int, f@)),
                None => find_face_upto(faces_view(faces@), s, n as int) is None,
            },
        decreases chars.len() - i,
    {
        proof {
            lemma_dot_positions_prefix(s, i as int + 1);
            assert(s.take(i + 1).drop_last() =~= s.take(i as int));
            assert(s.take(i + 1).last() == s[i as int]);
        }
        if chars[i] == '.' {
            proof {
                assert(dot_positions(s.take(i + 1)) =~= dots.take(n as int).push(i as int));
                assert(dots[n as int] == i);
                assert(is_char_boundary(encode_utf8(s), dots[n as int]));
                encode_utf8_decode_utf8(s);
            }
            let (prefix, _) = scope.as_str().split_at(i);
            let key = prefix.to_owned();
            proof {
                assert(encode_utf8(key@) == encode_utf8(s).subrange(0, i as int));
                encode_utf8_decode_utf8(key@);
                assert(encode_utf8(s).subrange(0, i as int) =~= encode_utf8(s).take(i as int));
                assert(key@ == prefix_at(s, dots[n as int]));
            }
            match lookup(faces, &key) {
                Some(f) => {
                    found = Some((n, f));
                },
                None => {},
            }
            n += 1;
        }
        i += 1;
    }
    proof {
        assert(s.take(i as int) =~= s);
        assert(dots.take(n as int) =~= dots);
    }
    found
}

proof fn lemma_dot_positions_prefix(s: Seq<char>, i: int)
    requires
        0 <= i <= s.len(),
    ensures
        dot_positions(s.take(i)).len() <= dot_positions(s).len(),
        dot_positions(s) =~= dot_positions(s.take(i)) + dot_positions(s).skip(dot_positions(s.take(i)).len() as int),
    decreases s.len() - i,
{
    if i < s.len() {
        lemma_dot_positions_prefix(s, i + 1);
        assert(s.take(i + 1).drop_last() =~= s.take(i));
    } else {
        assert(s.take(i) =~= s);
    }
}

/// For each group of scopes, the face of the longest dotted prefix (of any
/// scope in the group) that has a face in `faces`, ties going to the later
/// scope; empty when none has one. Scope prefixes are taken before each dot.
pub fn map_scopes_to_faces(scopes: &Vec<Vec<String>>, faces: &Vec<(String, String)>) -> (res: Vec<String>)
    requires
        forall|g: int, k: int| 0 <= g < scopes@.len() && 0 <= k < scopes@[g]@.len()
            ==> scope_cuts_defined(#[trigger] scopes@[g]@[k]@),
    ensures
        res@.map_values(|s: String| s@) == scope_faces(faces_view(faces@), groups_view(scopes@)),
{
    let ghost fv = faces_view(faces@);
    let ghost gv = groups_view(scopes@);
    let mut out: Vec<String> = Vec::new();
    let mut g: usize = 0;
    while g < scopes.len()
        invariant
            g <= scopes.len(),
            fv == faces_view(faces@),
            gv == groups_view(scopes@),
            forall|g: int, k: int| 0 <= g < scopes@.len() && 0 <= k < scopes@[g]@.len()
                ==> scope_cuts_defined(#[trigger] scopes@[g]@[k]@),
            out@.map_values(|s: String| s@) == scope_faces(fv, gv.take(g as int)),
        decreases scopes.len() - g,
    {
        let group = &scopes[g];
        let ghost gs = gv[g as int];
        proof {
            assert(gs == group@.map_values(|s: String| s@));
        }
        let mut best: Option<(usize, String)> = None;
        let mut k: usize = 0;
        while k < group.len()
            invariant
                k <= group.len(),
                gs == group@.map_values(|s: String| s@),
                forall|k: int| 0 <= k < group@.len() ==> scope_cuts_defined(#[trigger] group@[k]@),
                match best {
                    Some((m, f)) => best_face(fv, gs.take(k as int)) == Some((m as int, f@)),
                    None => best_face(fv, gs.take(k as int)) is None,
                },
                fv == faces_view(faces@),
            decreases group.len() - k,
        {
            proof {
                assert(gs.take(k + 1).drop_last() =~= gs.take(k as int));
                assert(gs.take(k + 1).last() == group@[k as int]@);
            }
            match find_scope_face(faces, &group[k]) {
                Some((n, f)) => {
                    let replace = match &best {
                        Some((m, _)) => n >= *m,
                        None => true,
                    };
                    if replace {
                        best = Some((n, f));
                    }
                },
                None => {},
            }
            k += 1;
        }
        proof {
            assert(gs.take(k as int) =~= gs);
        }
        let face = match best {
            Some((_, f)) => f,
            None => String::new(),
        };
        let ghost before = out@;
        out.push(face);
        proof {
            assert(gv.take(g + 1) =~= gv.take(g as int).push(gs));
            assert(out@.map_values(|s: String| s@) =~= before.map_values(|s: String| s@).push(face@));
            assert(scope_faces(fv, gv.take(g + 1)) =~= scope_faces(fv, gv.take(g as int)).push(face@));
        }
        g += 1;
    }
    proof {
        assert(gv.take(g as int) =~= gv);
    }
    out
}

} // verus!
