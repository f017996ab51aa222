//! Regular expressions, as the regex crate reads them.

use vstd::prelude::*;

verus! {

/// The message of the error that `regex::Regex::new` gives for a pattern, if
/// it gives one.
pub uninterp spec fn regex_error(pattern: Seq<char>) -> Option<Seq<char>>;

/// Whether the regex of a pattern matches somewhere in a text.
pub uninterp spec fn regex_match(pattern: Seq<char>, haystack: Seq<char>) -> bool;

/// `regex::Regex::new`: the message (`Display`) of the error it gives for
/// the pattern, or none when the pattern compiles. Stated only as the named
/// result `regex_error`.
#[verifier::external_body]
pub(crate) fn pattern_error(pattern: &str) -> (res: Option<String>)
    ensures
        match res {
            Some(e) => regex_error(pattern@) == Some(e@),
            None => regex_error(pattern@) is None,
        },
{
    regex::Regex::new(pattern).err().map(|e| e.to_string())
}

/// `regex::Regex::is_match` for the regex that the pattern compiles to.
/// Stated only as the named result `regex_match`.
#[verifier::external_body]
pub(crate) fn pattern_matches(pattern: &str, haystack: &str) -> (res: bool)
    requires
        regex_error(pattern@) is None,
    ensures
        res == regex_match(pattern@, haystack@),
{
    match regex::Regex::new(pattern) {
        Ok(re) => re.is_match(haystack),
        Err(_) => false,
    }
}

/// What `regex::Regex::replace_all` gives for a text: every match of the
/// pattern's regex replaced, with `$name` in the replacement standing for
/// what a group of that name matched.
pub uninterp spec fn regex_replaced(pattern: Seq<char>, haystack: Seq<char>, replacement: Seq<char>) -> Seq<char>;

/// `regex::Regex::replace_all` for the regex that the pattern compiles to.
/// Stated only as the named result `regex_replaced`.
#[verifier::external_body]
pub(crate) fn replace_all_matches(pattern: &str, haystack: &str, replacement: &str) -> (res: String)
    requires
        regex_error(pattern@) is None,
    ensures
        res@ == regex_replaced(pattern@, haystack@, replacement@),
{
    match regex::Regex::new(pattern) {
        Ok(re) => re.replace_all(haystack, replacement).into_owned(),
        Err(_) => haystack.to_string(),
    }
}

} // verus!
