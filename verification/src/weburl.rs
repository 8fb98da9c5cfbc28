//! URLs of the `url` crate, kept as their serialization.
use vstd::prelude::*;

verus! {

/// The serialization of the URL that `url::Url::parse` makes of `input`,
/// or `None` where it reports an error.
pub uninterp spec fn parsed_url(input: Seq<char>) -> Option<Seq<char>>;

/// The serialization of the URL that `url::Url::parse_with_params` makes of
/// `base` with the query pairs `params`, or `None` where it reports an error.
pub uninterp spec fn url_with_params(base: Seq<char>, params: Seq<(Seq<char>, Seq<char>)>) -> Option<
    Seq<char>,
>;

/// The query pairs as plain text.
pub open spec fn params_view(params: Seq<(&str, &str)>) -> Seq<(Seq<char>, Seq<char>)> {
    params.map_values(|p: (&str, &str)| (p.0@, p.1@))
}

/// Calls `url::Url::parse` and keeps the serialization; claims the named
/// result.
#[verifier::external_body]
pub(crate) fn parse_url(input: &str) -> (r: Result<String, url::ParseError>)
    ensures
        match r {
            Ok(u) => parsed_url(input@) == Some(u@),
            Err(_) => parsed_url(input@) is None,
        },
{
    url::Url::parse(input).map(String::from)
}

/// Calls `url::Url::parse_with_params` and keeps the serialization; claims
/// the named result, and, as the crate's source shows (it parses `base` as
/// `Url::parse` does and only then appends the pairs), that it fails exactly
/// where `base` does not parse.
#[verifier::external_body]
pub(crate) fn parse_url_with_params(base: &str, params: &[(&str, &str)]) -> (r: Result<
    String,
    url::ParseError,
>)
    ensures
        match r {
            Ok(u) => url_with_params(base@, params_view(params@)) == Some(u@),
            Err(_) => url_with_params(base@, params_view(params@)) is None,
        },
        r is Ok <==> parsed_url(base@) is Some,
{
    url::Url::parse_with_params(base, params).map(String::from)
}

} // verus!
