//! Kakoune's markup: text in faces, as `info -markup` and inlay options
//! show it.

use vstd::prelude::*;
use crate::util::{push_replaced, replace_char};

verus! {

/// Text shown as it is where Kakoune reads markup: a backslash is doubled and
/// a brace, which would open a face, is escaped by a backslash.
pub open spec fn markup_escape_spec(s: Seq<char>) -> Seq<char> {
    replace_char(replace_char(s, '\\', seq!['\\', '\\']), '{', seq!['\\', '{'])
}

/// Escapes text for Kakoune's markup; see `markup_escape_spec`.
pub fn escape_kakoune_markup(s: &str) -> (res: String)
    ensures
        res@ == markup_escape_spec(s@),
{
    proof {
        reveal_strlit("\\\\");
        reveal_strlit("\\{");
        assert("\\\\"@ =~= seq!['\\', '\\']);
        assert("\\{"@ =~= seq!['\\', '{']);
    }
    let mut doubled = String::new();
    push_replaced(&mut doubled, s, '\\', "\\\\");
    let mut out = String::new();
    push_replaced(&mut out, doubled.as_str(), '{', "\\{");
    out
}

} // verus!
