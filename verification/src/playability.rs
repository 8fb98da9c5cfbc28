//! Whether a video may be played, as the watch page reports it.
use vstd::prelude::*;

use crate::error::Error;

verus! {

/// The playability status that a watch page carries, keyed by its `status`.
#[derive(Debug)]
pub enum PlayabilityStatus {
    /// The video can be played (the page's status `OK`).
    Playable,
    /// The video cannot be played; the page may give a reason.
    Unplayable { reason: Option<String> },
    /// The video can only be played after logging in.
    LoginRequired { reason: Option<String> },
    /// The video is a live stream that is not running.
    LiveStreamOffline { reason: Option<String> },
    /// The page reports an error for the video.
    Error { reason: Option<String> },
}

/// Whether a video with this status may be fetched: it is playable, or it
/// only asks for a login because of its age restriction, which the embed page
/// gets around.
pub open spec fn is_available(status: PlayabilityStatus, is_age_restricted: bool) -> bool {
    status is Playable || (status is LoginRequired && is_age_restricted)
}

/// Decides, from the first playability status that the watch page carries,
/// whether the video can be fetched.
pub fn check_availability(status: Option<PlayabilityStatus>, is_age_restricted: bool) -> (r: Result<
    (),
    Error,
>)
    ensures
        status is None ==> (r matches Err(Error::UnexpectedResponse(m)) && m@
            == "watch html did not contain a PlayabilityStatus"@),
        status matches Some(s) ==> (r is Ok <==> is_available(s, is_age_restricted)),
        status matches Some(s) ==> (!is_available(s, is_age_restricted) ==> r == Err::<(), Error>(
            Error::VideoUnavailable(s),
        )),
        status matches Some(PlayabilityStatus::Playable) ==> r == Ok::<(), Error>(()),
        status matches Some(PlayabilityStatus::LoginRequired { .. }) ==> (is_age_restricted
            ==> r == Ok::<(), Error>(())),
        status matches Some(PlayabilityStatus::LoginRequired { .. }) ==> (!is_age_restricted
            ==> r == Err::<(), Error>(Error::VideoUnavailable(status->Some_0))),
        status matches Some(PlayabilityStatus::Unplayable { .. }) ==> r == Err::<(), Error>(
            Error::VideoUnavailable(status->Some_0),
        ),
        status matches Some(PlayabilityStatus::LiveStreamOffline { .. }) ==> r == Err::<
            (),
            Error,
        >(Error::VideoUnavailable(status->Some_0)),
        status matches Some(PlayabilityStatus::Error { .. }) ==> r == Err::<(), Error>(
            Error::VideoUnavailable(status->Some_0),
        ),
{
    match status {
        None => Err(
            Error::UnexpectedResponse(
                String::from_str("watch html did not contain a PlayabilityStatus"),
            ),
        ),
        Some(PlayabilityStatus::Playable) => Ok(()),
        Some(PlayabilityStatus::LoginRequired { reason }) => {
            if is_age_restricted {
                Ok(())
            } else {
                Err(Error::VideoUnavailable(PlayabilityStatus::LoginRequired { reason }))
            }
        },
        Some(ps) => Err(Error::VideoUnavailable(ps)),
    }
}

/// Only a playable video, or one that asks for a login only because of its
/// age restriction, may be fetched: an unplayable video, an offline live
/// stream and a reported error never may, whatever the age restriction.
pub proof fn law_availability_by_status(status: PlayabilityStatus, is_age_restricted: bool)
    ensures
        status is Playable ==> is_available(status, is_age_restricted),
        status is LoginRequired ==> (is_available(status, is_age_restricted) <==> is_age_restricted),
        status is Unplayable ==> !is_available(status, is_age_restricted),
        status is LiveStreamOffline ==> !is_available(status, is_age_restricted),
        status is Error ==> !is_available(status, is_age_restricted),
{
}

} // verus!
