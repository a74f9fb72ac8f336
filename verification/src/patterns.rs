//! Regular-expression searches, done by the `regex` crate.
use vstd::prelude::*;

verus! {

/// Whether `regex::Regex::new` accepts `pattern`.
pub uninterp spec fn regex_compiles(pattern: Seq<char>) -> bool;

/// The matches that `regex::Regex::find_iter` yields for `pattern` on
/// `haystack`, in order: each is the byte offset at which the match starts in
/// `haystack`, with the matched text.
pub uninterp spec fn regex_matches(pattern: Seq<char>, haystack: Seq<char>) -> Seq<(int, Seq<char>)>;

/// The matches of a result of [`find_all`] by their views.
pub open spec fn match_views(v: Seq<(usize, String)>) -> Seq<(int, Seq<char>)> {
    v.map_values(|m: (usize, String)| (m.0 as int, m.1@))
}

/// Compiles `pattern` with `regex::Regex::new` and lists the matches of
/// `Regex::find_iter` on `haystack`, each as its start offset and its text.
/// The contract claims only that `None` comes exactly when the pattern does
/// not compile, and that the list is the one `regex_matches` names; what
/// those matches are is left to the `regex` crate.
#[verifier::external_body]
pub fn find_all(pattern: &str, haystack: &str) -> (r: Option<Vec<(usize, String)>>)
    ensures
        r is Some <==> regex_compiles(pattern@),
        r matches Some(v) ==> match_views(v@) == regex_matches(pattern@, haystack@),
{
    match regex::Regex::new(pattern) {
        Ok(re) => Some(re.find_iter(haystack).map(|m| (m.start(), m.as_str().to_string())).collect()),
        Err(_) => None,
    }
}

/// The text of the first capture group in the first match of `pattern` on
/// `haystack`, as `regex::Regex::captures` finds it; `None` when there is no
/// match or the group took no part in it.
pub uninterp spec fn regex_first_group(pattern: Seq<char>, haystack: Seq<char>) -> Option<Seq<char>>;

/// The view of an optional string.
pub open spec fn opt_view(o: Option<String>) -> Option<Seq<char>> {
    match o {
        Some(s) => Some(s@),
        None => None,
    }
}

/// Compiles `pattern` with `regex::Regex::new` and returns the text of
/// capture group 1 of the first match of `Regex::captures` on `haystack`.
/// The contract claims only that `None` comes exactly when the pattern does
/// not compile, and that otherwise the group is the one `regex_first_group`
/// names.
#[verifier::external_body]
pub fn first_capture(pattern: &str, haystack: &str) -> (r: Option<Option<String>>)
    ensures
        r is Some <==> regex_compiles(pattern@),
        r matches Some(g) ==> opt_view(g) == regex_first_group(pattern@, haystack@),
{
    match regex::Regex::new(pattern) {
        Ok(re) => match re.captures(haystack) {
            Some(caps) => match caps.get(1) {
                Some(m) => Some(Some(m.as_str().to_string())),
                None => Some(None),
            },
            None => Some(None),
        },
        Err(_) => None,
    }
}

} // verus!
