use vstd::prelude::*;
use vstd::string::StringSliceAdditionalSpecFns;
use vstd::utf8::*;

verus! {

/// What `regex::Regex::find` reports as the end (a byte offset) of the
/// leftmost-first match of the regular expression `pattern` in `haystack`;
/// `None` when there is no match or when `pattern` is not accepted by
/// `regex::Regex::new`.
pub uninterp spec fn leftmost_match_end(pattern: Seq<char>, haystack: Seq<char>) -> Option<usize>;

/// Compiles `pattern` with `regex::Regex::new` and searches `haystack` with
/// `regex::Regex::find`, returning `Match::end` of the match found.
///
/// Trusted: the result is the named `leftmost_match_end` of the two strings.
/// The `regex` documentation of `Match::end` guarantees that the offset
/// falls on a UTF-8 character boundary and that the haystack can be sliced
/// up to it, which is what the second clause states. Nothing is stated of
/// which match is found.
#[verifier::external_body]
pub(crate) fn find_match_end(pattern: &str, haystack: &str) -> (r: Option<usize>)
    ensures
        r == leftmost_match_end(pattern@, haystack@),
        r matches Some(end) ==> end <= haystack.spec_bytes().len() && is_char_boundary(
            haystack.spec_bytes(),
            end as int,
        ),
{
    match regex::Regex::new(pattern) {
        Ok(re) => match re.find(haystack) {
            Some(m) => Some(m.end()),
            None => None,
        },
        Err(_) => None,
    }
}

} // verus!
