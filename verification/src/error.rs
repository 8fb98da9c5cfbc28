use vstd::prelude::*;

use crate::playability::PlayabilityStatus;

verus! {

/// Everything that can go wrong while locating and checking the data of a video.
#[derive(Debug)]
pub enum Error {
    /// A step that should not fail on well-formed pages did fail; the text names the step.
    Internal(&'static str),
    /// The page does not have the shape that the library expects.
    UnexpectedResponse(String),
    /// The video cannot be fetched; the page's playability status says why.
    VideoUnavailable(PlayabilityStatus),
    /// A URL could not be built.
    UrlParse(url::ParseError),
    /// A regular expression of the library, given here, was refused by the regex engine.
    InvalidPattern(&'static str),
    /// The text does not hold a video id.
    BadIdFormat,
}

} // verus!
