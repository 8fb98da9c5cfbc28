//! Regular expressions of the `regex` crate, reached through a few trusted
//! calls whose results are named by the pattern's source and the haystack.
use vstd::prelude::*;
use vstd::string::*;
use vstd::utf8::*;

use crate::error::Error;

verus! {

/// Whether `regex::Regex::new` accepts the pattern `source`.
pub uninterp spec fn regex_compiles(source: Seq<char>) -> bool;

/// What `regex::Regex::is_match` answers for the pattern `source` on `haystack`.
pub uninterp spec fn regex_is_match(source: Seq<char>, haystack: Seq<char>) -> bool;

/// The byte offsets at which the successive non-overlapping matches that
/// `regex::Regex::find_iter` yields for `source` in `haystack` end.
pub uninterp spec fn regex_match_ends(source: Seq<char>, haystack: Seq<char>) -> Seq<int>;

/// The byte offset at which the first match that `regex::Regex::find`
/// reports for `source` in `haystack` ends.
pub uninterp spec fn regex_first_match_end(source: Seq<char>, haystack: Seq<char>) -> Option<int>;

/// The text of capture group 1 in the first match that
/// `regex::Regex::captures` reports for `source` in `haystack`.
pub uninterp spec fn regex_first_group(source: Seq<char>, haystack: Seq<char>) -> Option<
    Seq<char>,
>;

/// Whether `part` stands in `whole` as one contiguous run of characters.
pub open spec fn is_part_of(part: Seq<char>, whole: Seq<char>) -> bool {
    exists|start: int, end: int|
        0 <= start <= end <= whole.len() && part == #[trigger] whole.subrange(start, end)
}

/// A compiled regular expression together with the source it was compiled
/// from. Its fields are private and only `Pattern::new` builds one, so the
/// compiled expression is always the one of `source`.
pub struct Pattern {
    source: &'static str,
    regex: regex::Regex,
}

impl Pattern {
    /// The source that this pattern was compiled from.
    pub closed spec fn source(&self) -> Seq<char> {
        self.source@
    }

    /// Calls `regex::Regex::new`; claims that it succeeds exactly on the
    /// sources it accepts, and keeps the source beside the compiled value.
    /// The engine's error value is dropped.
    #[verifier::external_body]
    pub(crate) fn new(source: &'static str) -> (r: Option<Pattern>)
        ensures
            r is Some <==> regex_compiles(source@),
            r matches Some(p) ==> p.source() == source@,
    {
        regex::Regex::new(source).ok().map(|regex| Pattern { source, regex })
    }

    /// Calls `regex::Regex::is_match`; claims the named answer.
    #[verifier::external_body]
    pub(crate) fn is_match(&self, haystack: &str) -> (r: bool)
        ensures
            r == regex_is_match(self.source(), haystack@),
    {
        self.regex.is_match(haystack)
    }

    /// Calls `regex::Regex::find_iter` and keeps the end of each match;
    /// claims the named ends, each of which, as the crate documents for
    /// `Match::end`, falls on a character boundary of the haystack.
    #[verifier::external_body]
    pub(crate) fn match_ends(&self, haystack: &str) -> (r: Vec<usize>)
        ensures
            r@.len() == regex_match_ends(self.source(), haystack@).len(),
            forall|i: int|
                0 <= i < r@.len() ==> r@[i] as int == #[trigger] regex_match_ends(
                    self.source(),
                    haystack@,
                )[i],
            forall|i: int|
                0 <= i < r@.len() ==> is_char_boundary(haystack.spec_bytes(), #[trigger] r@[i] as int),
    {
        self.regex.find_iter(haystack).map(|m| m.end()).collect()
    }

    /// Calls `regex::Regex::find` and keeps the end of the match; claims the
    /// named end, which falls on a character boundary of the haystack. It also
    /// claims that this match is the first of those that `find_iter` yields:
    /// in the crate's source both run the same search from the start of the
    /// haystack (`find_at(h, 0)` and the first step of the iterator's
    /// `Searcher`, which has no earlier match to skip).
    #[verifier::external_body]
    pub(crate) fn first_match_end(&self, haystack: &str) -> (r: Option<usize>)
        ensures
            match r {
                Some(e) => regex_first_match_end(self.source(), haystack@) == Some(e as int)
                    && is_char_boundary(haystack.spec_bytes(), e as int),
                None => regex_first_match_end(self.source(), haystack@) is None,
            },
            match r {
                Some(e) => regex_match_ends(self.source(), haystack@).len() > 0
                    && regex_match_ends(self.source(), haystack@)[0] == e as int,
                None => regex_match_ends(self.source(), haystack@).len() == 0,
            },
    {
        self.regex.find(haystack).map(|m| m.end())
    }

    /// Calls `regex::Regex::captures` and keeps the text of group 1 of the
    /// first match; claims the named text, and, as the crate documents for
    /// `Match::as_str`, that it is a contiguous part of the haystack. A match
    /// in which group 1 did not take part gives `None`, as no match does.
    #[verifier::external_body]
    pub(crate) fn first_group<'h>(&self, haystack: &'h str) -> (r: Option<&'h str>)
        ensures
            match r {
                Some(g) => regex_first_group(self.source(), haystack@) == Some(g@),
                None => regex_first_group(self.source(), haystack@) is None,
            },
            r matches Some(g) ==> is_part_of(g@, haystack@),
    {
        self.regex.captures(haystack).and_then(|c| c.get(1)).map(|m| m.as_str())
    }
}

/// Compiles `source`, reporting a source that the regex engine refuses.
pub fn compile(source: &'static str) -> (r: Result<Pattern, Error>)
    ensures
        r is Ok <==> regex_compiles(source@),
        r matches Ok(p) ==> p.source() == source@,
        r matches Err(e) ==> e == Error::InvalidPattern(source),
{
    match Pattern::new(source) {
        Some(p) => Ok(p),
        None => Err(Error::InvalidPattern(source)),
    }
}

} // verus!
