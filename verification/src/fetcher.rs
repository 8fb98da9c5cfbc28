//! What a fetcher decides while it gathers the data of a video: which pages
//! to request, and what it reads out of them.
use vstd::prelude::*;
use vstd::string::*;
use vstd::utf8::*;

use crate::error::Error;
use crate::id::IdBuf;
use crate::json::{
    json_object, json_object_in, json_object_span, law_json_object_idempotent,
    lemma_first_brace, lemma_json_object_in_bounds, BRACE_OPEN,
};
use crate::pattern::{compile, is_part_of, regex_compiles, regex_first_group, regex_first_match_end, regex_is_match, regex_match_ends};
use crate::weburl::{parse_url, parse_url_with_params, params_view, parsed_url, url_with_params};

verus! {

broadcast use vstd::utf8::encode_utf8_valid_utf8;

/// Marks a watch page of an age-restricted video.
pub const AGE_RESTRICTION_PATTERN: &'static str = "og:restrictions:age";

/// Precedes the playability status object in a watch page.
pub const PLAYABILITY_STATUS_PATTERN: &'static str = r#"["']?playabilityStatus["']?\s*[:=]\s*"#;

/// Precedes the player configuration assigned to `ytplayer.config`.
pub const YTPLAYER_CONFIG_PATTERN: &'static str = r"ytplayer\.config\s*=\s*";

/// Precedes the player response assigned to `ytInitialPlayerResponse`.
pub const INITIAL_PLAYER_RESPONSE_PATTERN: &'static str = r"ytInitialPlayerResponse\s*=\s*";

/// Precedes the player configuration handed to `yt.setConfig`.
pub const SET_CONFIG_PATTERN: &'static str = r#"yt\.setConfig\(.*['"]PLAYER_CONFIG['"]:\s*"#;

/// Captures the path of the player's `base.js`.
pub const PLAYER_JS_PATTERN: &'static str = r"(/s/player/[\w\d]+/[\w\d_/.]+/base\.js)";

/// Captures the signature timestamp `sts`.
pub const STS_PATTERN: &'static str = r#""sts"\s*:\s*(\d+)"#;

/// The endpoint that serves the video info.
pub const VIDEO_INFO_BASE_URL: &'static str = "https://youtube.com/get_video_info?";

/// The host that the player's script path is relative to.
pub const PLAYER_JS_HOST: &'static str = "https://youtube.com";

/// The prefix of the embed URL sent along when the video is age restricted.
pub const EMBED_REFERRER_PREFIX: &'static str = "https://youtube.googleapis.com/v/";

/// Whether `r` is what building a URL gives when the `url` crate makes
/// `expected` of it.
pub open spec fn built_url(r: Result<String, Error>, expected: Option<Seq<char>>) -> bool {
    match expected {
        Some(u) => r is Ok && r->Ok_0@ == u,
        None => r matches Err(e) && e is UrlParse,
    }
}

/// The span (in bytes of `b`) of the first JSON object after byte `end`.
pub open spec fn object_after(b: Seq<u8>, end: int) -> Result<(int, int), Error> {
    match json_object_in(b.subrange(end, b.len() as int)) {
        Ok((s, t)) => Ok((end + s, end + t)),
        Err(e) => Err(e),
    }
}

/// The span (in bytes of the page) of the first JSON object after the first
/// match of `source` in `html`.
pub open spec fn object_after_pattern(source: Seq<char>, html: Seq<char>) -> Result<(int, int), Error> {
    match regex_first_match_end(source, html) {
        None => Err(Error::Internal("The regex does not match")),
        Some(end) => object_after(encode_utf8(html), end),
    }
}

/// The spans of the JSON objects that follow the given match ends, skipping
/// the ends after which no complete object follows.
pub open spec fn objects_after(b: Seq<u8>, ends: Seq<int>) -> Seq<(int, int)>
    decreases ends.len(),
{
    if ends.len() == 0 {
        seq![]
    } else {
        let prev = objects_after(b, ends.drop_last());
        match object_after(b, ends.last()) {
            Ok(span) => prev.push(span),
            Err(_) => prev,
        }
    }
}

/// Whether the texts `found` are exactly the parts of `b` at `spans`.
pub open spec fn texts_at(found: Seq<&str>, b: Seq<u8>, spans: Seq<(int, int)>) -> bool {
    &&& found.len() == spans.len()
    &&& forall|k: int|
        0 <= k < found.len() ==> (#[trigger] found[k]).spec_bytes() == b.subrange(
            spans[k].0,
            spans[k].1,
        )
}

/// The patterns that precede a player configuration, in the order tried.
pub open spec fn config_patterns() -> Seq<Seq<char>> {
    seq![YTPLAYER_CONFIG_PATTERN@, INITIAL_PLAYER_RESPONSE_PATTERN@, SET_CONFIG_PATTERN@]
}

/// The spans of the player configurations that follow the first `k` of
/// `config_patterns`, in that order, skipping those that give none.
pub open spec fn config_objects(html: Seq<char>, k: int) -> Seq<(int, int)>
    decreases k,
{
    if k <= 0 {
        seq![]
    } else {
        let prev = config_objects(html, k - 1);
        match object_after_pattern(config_patterns()[k - 1], html) {
            Ok(span) => prev.push(span),
            Err(_) => prev,
        }
    }
}

/// The query pairs of the video info request.
pub open spec fn video_info_params(video_id: Seq<char>, watch_url: Seq<char>) -> Seq<
    (Seq<char>, Seq<char>),
> {
    seq![
        ("video_id"@, video_id),
        ("ps"@, "default"@),
        ("eurl"@, watch_url),
        ("hl"@, "en_US"@),
    ]
}

/// The signature timestamp that `watch_url` carries, or the empty text.
pub open spec fn sts_of(watch_url: Seq<char>) -> Seq<char> {
    match regex_first_group(STS_PATTERN@, watch_url) {
        Some(sts) => sts,
        None => Seq::empty(),
    }
}

/// The query pairs of the video info request for an age-restricted video.
pub open spec fn age_restricted_params(video_id: Seq<char>, watch_url: Seq<char>) -> Seq<
    (Seq<char>, Seq<char>),
> {
    seq![
        ("video_id"@, video_id),
        ("eurl"@, EMBED_REFERRER_PREFIX@ + video_id),
        ("sts"@, sts_of(watch_url)),
    ]
}

/// The object found after a position of a page is a whole JSON object:
/// extracting an object from it gives it back unchanged.
pub proof fn law_object_after_is_whole(b: Seq<u8>, end: int)
    requires
        0 <= end <= b.len(),
        object_after(b, end) is Ok,
    ensures
        ({
            let (s, t) = object_after(b, end)->Ok_0;
            json_object_span(b.subrange(s, t)) == Some((0int, t - s))
        }),
{
    let tail = b.subrange(end, b.len() as int);
    lemma_json_object_in_bounds(tail);
    law_json_object_idempotent(tail);
    let (s, t) = json_object_in(tail)->Ok_0;
    assert(b.subrange(end + s, end + t) =~= tail.subrange(s, t));
}

/// Every text that is handed on to be read as a playability status is a
/// whole JSON object: extracting an object from it gives it back unchanged.
pub proof fn law_candidates_are_whole_objects(b: Seq<u8>, ends: Seq<int>)
    requires
        forall|i: int| 0 <= i < ends.len() ==> 0 <= #[trigger] ends[i] <= b.len(),
    ensures
        forall|k: int|
            0 <= k < objects_after(b, ends).len() ==> json_object_span(
                b.subrange(
                    (#[trigger] objects_after(b, ends)[k]).0,
                    objects_after(b, ends)[k].1,
                ),
            ) == Some((0int, objects_after(b, ends)[k].1 - objects_after(b, ends)[k].0)),
    decreases ends.len(),
{
    if ends.len() > 0 {
        let prev = ends.drop_last();
        law_candidates_are_whole_objects(b, prev);
        if object_after(b, ends.last()) is Ok {
            law_object_after_is_whole(b, ends.last());
        }
    }
}

/// The span of an outcome as a list: one span if an object was found, none
/// otherwise.
pub open spec fn span_list(r: Result<(int, int), Error>) -> Seq<(int, int)> {
    match r {
        Ok(span) => seq![span],
        Err(_) => Seq::empty(),
    }
}

/// The object after a position is the first object of the text from there
/// on: it opens at the first `{` at or after the position, and it is whole.
pub proof fn law_object_after_is_first_object(b: Seq<u8>, end: int)
    requires
        0 <= end <= b.len(),
        object_after(b, end) is Ok,
    ensures
        ({
            let (s, t) = object_after(b, end)->Ok_0;
            &&& end <= s < t <= b.len()
            &&& b[s] == BRACE_OPEN
            &&& forall|k: int| end <= k < s ==> b[k] != BRACE_OPEN
            &&& json_object_span(b.subrange(s, t)) == Some((0int, t - s))
        }),
{
    let tail = b.subrange(end, b.len() as int);
    lemma_json_object_in_bounds(tail);
    lemma_first_brace(tail);
    law_object_after_is_whole(b, end);
    let (s, t) = object_after(b, end)->Ok_0;
    assert forall|k: int| end <= k < s implies b[k] != BRACE_OPEN by {
        assert(tail[k - end] == b[k]);
    }
    assert(tail[s - end] == b[s]);
}

/// The objects after one match end: the object after it, if there is one.
pub proof fn law_objects_after_single(b: Seq<u8>, end: int)
    ensures
        objects_after(b, seq![end]) == span_list(object_after(b, end)),
{
    assert(seq![end].drop_last() =~= Seq::<int>::empty());
    assert(seq![end].last() == end);
    assert(objects_after(b, Seq::<int>::empty()) == Seq::<(int, int)>::empty());
    if object_after(b, end) is Ok {
        assert(Seq::<(int, int)>::empty().push(object_after(b, end)->Ok_0) =~= seq![
            object_after(b, end)->Ok_0,
        ]);
    }
}

/// Every match end contributes independently, in order: the objects after a
/// run of match ends are those after its first part, then those after the
/// rest.
pub proof fn law_objects_after_concat(b: Seq<u8>, first: Seq<int>, rest: Seq<int>)
    ensures
        objects_after(b, first + rest) == objects_after(b, first) + objects_after(b, rest),
    decreases rest.len(),
{
    if rest.len() == 0 {
        assert(first + rest =~= first);
        assert(objects_after(b, rest) == Seq::<(int, int)>::empty());
        assert(objects_after(b, first) + objects_after(b, rest) =~= objects_after(b, first));
    } else {
        assert((first + rest).drop_last() =~= first + rest.drop_last());
        assert((first + rest).last() == rest.last());
        law_objects_after_concat(b, first, rest.drop_last());
        let x = objects_after(b, first);
        let y = objects_after(b, rest.drop_last());
        if object_after(b, rest.last()) is Ok {
            assert((x + y).push(object_after(b, rest.last())->Ok_0) =~= x + y.push(
                object_after(b, rest.last())->Ok_0,
            ));
        }
    }
}

/// As many candidates as there are match ends followed by an object.
pub proof fn law_objects_after_count(b: Seq<u8>, ends: Seq<int>)
    ensures
        objects_after(b, ends).len() == ends.filter(|e: int| object_after(b, e) is Ok).len(),
    decreases ends.len(),
{
    reveal_with_fuel(Seq::<int>::filter, 1);
    if ends.len() > 0 {
        law_objects_after_count(b, ends.drop_last());
    }
}

/// The configuration candidates are, in the order of the patterns, the
/// object after each configuration pattern that is followed by one; each
/// pattern contributes independently of the others.
pub proof fn law_config_objects_per_pattern(html: Seq<char>)
    ensures
        config_objects(html, 3) == span_list(object_after_pattern(YTPLAYER_CONFIG_PATTERN@, html))
            + span_list(object_after_pattern(INITIAL_PLAYER_RESPONSE_PATTERN@, html)) + span_list(
            object_after_pattern(SET_CONFIG_PATTERN@, html),
        ),
{
    reveal_with_fuel(config_objects, 4);
    let ps = config_patterns();
    assert(ps[0] == YTPLAYER_CONFIG_PATTERN@ && ps[1] == INITIAL_PLAYER_RESPONSE_PATTERN@ && ps[2]
        == SET_CONFIG_PATTERN@);
    let a = span_list(object_after_pattern(ps[0], html));
    let b = span_list(object_after_pattern(ps[1], html));
    let c = span_list(object_after_pattern(ps[2], html));
    assert(config_objects(html, 1) =~= a);
    assert(config_objects(html, 2) =~= a + b);
    assert(config_objects(html, 3) =~= a + b + c);
}

/// Where the first match that `find` reports is the first of those that
/// `find_iter` yields (as the wrapper of `find` states), the object sought
/// after a pattern is the one after its first match.
pub proof fn law_object_after_pattern_uses_first_match(source: Seq<char>, html: Seq<char>)
    requires
        regex_first_match_end(source, html) == (if regex_match_ends(source, html).len() == 0 {
            None
        } else {
            Some(regex_match_ends(source, html)[0])
        }),
    ensures
        regex_match_ends(source, html).len() == 0 ==> object_after_pattern(source, html) == Err::<
            (int, int),
            Error,
        >(Error::Internal("The regex does not match")),
        regex_match_ends(source, html).len() > 0 ==> object_after_pattern(source, html)
            == object_after(encode_utf8(html), regex_match_ends(source, html)[0]),
{
}

/// Whether the watch page marks the video as age restricted.
pub fn is_age_restricted(watch_html: &str) -> (r: Result<bool, Error>)
    ensures
        regex_compiles(AGE_RESTRICTION_PATTERN@) ==> r == Ok::<bool, Error>(
            regex_is_match(AGE_RESTRICTION_PATTERN@, watch_html@),
        ),
        !regex_compiles(AGE_RESTRICTION_PATTERN@) ==> r == Err::<bool, Error>(
            Error::InvalidPattern(AGE_RESTRICTION_PATTERN),
        ),
{
    let pattern = compile(AGE_RESTRICTION_PATTERN)?;
    Ok(pattern.is_match(watch_html))
}

/// The first complete JSON object after the first match of `pattern` in `html`.
pub fn parse_for_object<'a>(html: &'a str, pattern: &'static str) -> (r: Result<&'a str, Error>)
    ensures
        !regex_compiles(pattern@) ==> r == Err::<&str, Error>(Error::InvalidPattern(pattern)),
        regex_compiles(pattern@) ==> match object_after_pattern(pattern@, html@) {
            Ok((s, t)) => r is Ok && r->Ok_0.spec_bytes() == html.spec_bytes().subrange(s, t),
            Err(e) => r == Err::<&str, Error>(e),
        },
        regex_compiles(pattern@) && regex_match_ends(pattern@, html@).len() == 0 ==> r == Err::<
            &str,
            Error,
        >(Error::Internal("The regex does not match")),
        regex_compiles(pattern@) && regex_match_ends(pattern@, html@).len() > 0 ==> match object_after(
            html.spec_bytes(),
            regex_match_ends(pattern@, html@)[0],
        ) {
            Ok((s, t)) => r is Ok && r->Ok_0.spec_bytes() == html.spec_bytes().subrange(s, t),
            Err(e) => r == Err::<&str, Error>(e),
        },
{
    let compiled = compile(pattern)?;
    let end = match compiled.first_match_end(html) {
        Some(end) => end,
        None => return Err(Error::Internal("The regex does not match")),
    };
    let (_, rest) = html.split_at(end);
    let ghost b = html.spec_bytes();
    assert(rest.spec_bytes() =~= b.subrange(end as int, b.len() as int));
    let obj = json_object(rest)?;
    proof {
        lemma_json_object_in_bounds(rest.spec_bytes());
        let (s, t) = json_object_in(rest.spec_bytes())->Ok_0;
        assert(obj.spec_bytes() =~= b.subrange(end + s, end + t));
    }
    Ok(obj)
}

/// The JSON objects that follow the matches of the playability status
/// pattern in the watch page, in order; the first of them that reads as a
/// playability status is the page's status.
pub fn playability_status_candidates(watch_html: &str) -> (r: Result<Vec<&str>, Error>)
    ensures
        !regex_compiles(PLAYABILITY_STATUS_PATTERN@) ==> r == Err::<Vec<&str>, Error>(
            Error::InvalidPattern(PLAYABILITY_STATUS_PATTERN),
        ),
        regex_compiles(PLAYABILITY_STATUS_PATTERN@) ==> r is Ok && texts_at(
            r->Ok_0@,
            watch_html.spec_bytes(),
            objects_after(
                watch_html.spec_bytes(),
                regex_match_ends(PLAYABILITY_STATUS_PATTERN@, watch_html@),
            ),
        ),
{
    let pattern = compile(PLAYABILITY_STATUS_PATTERN)?;
    let ends = pattern.match_ends(watch_html);
    let ghost b = watch_html.spec_bytes();
    let ghost all_ends = regex_match_ends(PLAYABILITY_STATUS_PATTERN@, watch_html@);
    let mut found: Vec<&str> = Vec::new();
    let mut i: usize = 0;
    while i < ends.len()
        invariant
            b == watch_html.spec_bytes(),
            ends@.len() == all_ends.len(),
            forall|k: int| 0 <= k < ends@.len() ==> ends@[k] as int == #[trigger] all_ends[k],
            forall|k: int|
                0 <= k < ends@.len() ==> is_char_boundary(b, #[trigger] ends@[k] as int),
            i <= ends@.len(),
            texts_at(found@, b, objects_after(b, all_ends.take(i as int))),
        decreases ends@.len() - i,
    {
        let end = ends[i];
        assert(is_char_boundary(b, ends@[i as int] as int));
        let (_, rest) = watch_html.split_at(end);
        assert(rest.spec_bytes() =~= b.subrange(end as int, b.len() as int));
        assert(all_ends.take(i + 1).drop_last() =~= all_ends.take(i as int));
        assert(all_ends.take(i + 1).last() == end as int);
        match json_object(rest) {
            Ok(obj) => {
                proof {
                    lemma_json_object_in_bounds(rest.spec_bytes());
                    let (s, t) = json_object_in(rest.spec_bytes())->Ok_0;
                    assert(obj.spec_bytes() =~= b.subrange(end + s, end + t));
                }
                found.push(obj);
            },
            Err(_) => {},
        }
        i = i + 1;
    }
    assert(all_ends.take(ends@.len() as int) =~= all_ends);
    Ok(found)
}

/// The player configurations that the page holds after each of the
/// configuration patterns, in the order of the patterns; the first of them
/// that reads as a player response is the page's player response.
pub fn ytplayer_config_candidates(html: &str) -> (r: Result<Vec<&str>, Error>)
    ensures
        (forall|k: int| 0 <= k < 3 ==> regex_compiles(#[trigger] config_patterns()[k])) ==> r is Ok
            && texts_at(r->Ok_0@, html.spec_bytes(), config_objects(html@, 3)),
        (forall|k: int| 0 <= k < 3 ==> regex_compiles(#[trigger] config_patterns()[k])) ==> r is Ok
            && texts_at(
            r->Ok_0@,
            html.spec_bytes(),
            span_list(object_after_pattern(YTPLAYER_CONFIG_PATTERN@, html@)) + span_list(
                object_after_pattern(INITIAL_PLAYER_RESPONSE_PATTERN@, html@),
            ) + span_list(object_after_pattern(SET_CONFIG_PATTERN@, html@)),
        ),
        !(forall|k: int| 0 <= k < 3 ==> regex_compiles(#[trigger] config_patterns()[k])) ==> (
        r matches Err(e) && e is InvalidPattern),
        r matches Err(e) ==> e is InvalidPattern,
{
    let ghost b = html.spec_bytes();
    let ghost ps = config_patterns();
    assert(ps[0] == YTPLAYER_CONFIG_PATTERN@ && ps[1] == INITIAL_PLAYER_RESPONSE_PATTERN@ && ps[2]
        == SET_CONFIG_PATTERN@);
    let mut found: Vec<&str> = Vec::new();
    proof {
        reveal_with_fuel(config_objects, 4);
    }
    match parse_for_object(html, YTPLAYER_CONFIG_PATTERN) {
        Ok(json) => found.push(json),
        Err(Error::InvalidPattern(p)) => return Err(Error::InvalidPattern(p)),
        Err(_) => {},
    }
    assert(texts_at(found@, b, config_objects(html@, 1)));
    match parse_for_object(html, INITIAL_PLAYER_RESPONSE_PATTERN) {
        Ok(json) => found.push(json),
        Err(Error::InvalidPattern(p)) => return Err(Error::InvalidPattern(p)),
        Err(_) => {},
    }
    assert(texts_at(found@, b, config_objects(html@, 2)));
    match parse_for_object(html, SET_CONFIG_PATTERN) {
        Ok(json) => found.push(json),
        Err(Error::InvalidPattern(p)) => return Err(Error::InvalidPattern(p)),
        Err(_) => {},
    }
    assert(texts_at(found@, b, config_objects(html@, 3)));
    proof {
        law_config_objects_per_pattern(html@);
    }
    Ok(found)
}

/// The path of the player's script, as the watch page names it.
pub fn get_ytplayer_js(html: &str) -> (r: Result<&str, Error>)
    ensures
        !regex_compiles(PLAYER_JS_PATTERN@) ==> r == Err::<&str, Error>(
            Error::InvalidPattern(PLAYER_JS_PATTERN),
        ),
        regex_compiles(PLAYER_JS_PATTERN@) ==> match regex_first_group(PLAYER_JS_PATTERN@, html@) {
            Some(path) => r is Ok && r->Ok_0@ == path,
            None => r matches Err(Error::UnexpectedResponse(m)) && m@
                == "could not extract the ytplayer-javascript url from the watch html"@,
        },
        r matches Ok(path) ==> is_part_of(path@, html@),
{
    let pattern = compile(PLAYER_JS_PATTERN)?;
    match pattern.first_group(html) {
        Some(path) => Ok(path),
        None => Err(
            Error::UnexpectedResponse(
                String::from_str("could not extract the ytplayer-javascript url from the watch html"),
            ),
        ),
    }
}

/// The URL of the player's script: the one that the player configuration
/// names (`config_js`), or else the one that the page names.
pub fn js_url(html: &str, config_js: Option<&str>) -> (r: Result<String, Error>)
    ensures
        config_js matches Some(js) ==> built_url(r, parsed_url(PLAYER_JS_HOST@ + js@)),
        config_js is None && !regex_compiles(PLAYER_JS_PATTERN@) ==> r == Err::<String, Error>(
            Error::InvalidPattern(PLAYER_JS_PATTERN),
        ),
        config_js is None && regex_compiles(PLAYER_JS_PATTERN@) ==> match regex_first_group(
            PLAYER_JS_PATTERN@,
            html@,
        ) {
            Some(path) => built_url(r, parsed_url(PLAYER_JS_HOST@ + path)),
            None => r matches Err(Error::UnexpectedResponse(m)) && m@
                == "could not extract the ytplayer-javascript url from the watch html"@,
        },
{
    let base_js = match config_js {
        Some(js) => js,
        None => get_ytplayer_js(html)?,
    };
    let mut full = String::from_str(PLAYER_JS_HOST);
    full.append(base_js);
    match parse_url(full.as_str()) {
        Ok(url) => Ok(url),
        Err(e) => Err(Error::UrlParse(e)),
    }
}

/// The video info URL with the given query pairs.
pub fn _video_info_url(params: &[(&str, &str)]) -> (r: Result<String, Error>)
    ensures
        built_url(r, url_with_params(VIDEO_INFO_BASE_URL@, params_view(params@))),
{
    match parse_url_with_params(VIDEO_INFO_BASE_URL, params) {
        Ok(url) => Ok(url),
        Err(e) => Err(Error::UrlParse(e)),
    }
}

/// The video info URL of a video that is not age restricted.
pub fn video_info_url(video_id: &IdBuf, watch_url: &str) -> (r: Result<String, Error>)
    ensures
        built_url(
            r,
            url_with_params(VIDEO_INFO_BASE_URL@, video_info_params(video_id@, watch_url@)),
        ),
{
    let mut params: Vec<(&str, &str)> = Vec::new();
    params.push(("video_id", video_id.as_str()));
    params.push(("ps", "default"));
    params.push(("eurl", watch_url));
    params.push(("hl", "en_US"));
    assert(params_view(params@) =~= video_info_params(video_id@, watch_url@));
    _video_info_url(params.as_slice())
}

/// The video info URL of an age-restricted video.
pub fn video_info_url_age_restricted(video_id: &IdBuf, watch_url: &str) -> (r: Result<
    String,
    Error,
>)
    ensures
        !regex_compiles(STS_PATTERN@) ==> r == Err::<String, Error>(
            Error::InvalidPattern(STS_PATTERN),
        ),
        regex_compiles(STS_PATTERN@) ==> built_url(
            r,
            url_with_params(VIDEO_INFO_BASE_URL@, age_restricted_params(video_id@, watch_url@)),
        ),
{
    let pattern = compile(STS_PATTERN)?;
    let sts = match pattern.first_group(watch_url) {
        Some(sts) => sts,
        None => "",
    };
    proof {
        reveal_strlit("");
    }
    assert(sts@ == sts_of(watch_url@));
    let mut eurl = String::from_str(EMBED_REFERRER_PREFIX);
    eurl.append(video_id.as_str());
    let mut params: Vec<(&str, &str)> = Vec::new();
    params.push(("video_id", video_id.as_str()));
    params.push(("eurl", eurl.as_str()));
    params.push(("sts", sts));
    assert(params_view(params@) =~= age_restricted_params(video_id@, watch_url@));
    _video_info_url(params.as_slice())
}

/// Settles which player response the video info keeps: its own where it
/// carries streaming data, else the one that the watch page held.
pub fn resolve_player_response<P>(
    current: P,
    current_has_streaming_data: bool,
    from_watch_html: Option<P>,
) -> (r: Result<P, Error>)
    ensures
        current_has_streaming_data ==> r == Ok::<P, Error>(current),
        !current_has_streaming_data && from_watch_html is Some ==> r == Ok::<P, Error>(
            from_watch_html->Some_0,
        ),
        !current_has_streaming_data && from_watch_html is None ==> (r matches Err(
            Error::UnexpectedResponse(m),
        ) && m@
            == "StreamingData is none and the watch html did not contain a valid PlayerResponse"@),
{
    if current_has_streaming_data {
        return Ok(current);
    }
    match from_watch_html {
        Some(p) => Ok(p),
        None => Err(
            Error::UnexpectedResponse(
                String::from_str(
                    "StreamingData is none and the watch html did not contain a valid PlayerResponse",
                ),
            ),
        ),
    }
}

/// Gathers what is needed to fetch the data of one video: its id, the URL
/// of its watch page, and the client that requests pages.
pub struct VideoFetcher<C> {
    video_id: IdBuf,
    watch_url: String,
    client: C,
}

impl<C> VideoFetcher<C> {
    #[verifier::type_invariant]
    spec fn well_formed(self) -> bool {
        self.watch_url@ == "https://youtube.com/watch?v="@ + self.video_id@
    }

    /// The id of the video.
    pub closed spec fn id_view(&self) -> Seq<char> {
        self.video_id@
    }

    /// The URL of the video's watch page.
    pub closed spec fn watch_url_view(&self) -> Seq<char> {
        self.watch_url@
    }

    /// The client that requests the pages.
    pub closed spec fn client_view(&self) -> C {
        self.client
    }

    /// A fetcher for the video `video_id` that requests pages with `client`.
    pub fn from_id_with_client(video_id: IdBuf, client: C) -> (r: Self)
        ensures
            r.id_view() == video_id@,
            r.watch_url_view() == "https://youtube.com/watch?v="@ + video_id@,
            r.client_view() == client,
    {
        let watch_url = video_id.watch_url();
        VideoFetcher { watch_url, video_id, client }
    }

    /// The id of the video.
    pub fn video_id(&self) -> (r: &IdBuf)
        ensures
            r@ == self.id_view(),
    {
        &self.video_id
    }

    /// The URL of the video's watch page.
    pub fn watch_url(&self) -> (r: &str)
        ensures
            r@ == self.watch_url_view(),
            r@ == "https://youtube.com/watch?v="@ + self.id_view(),
    {
        proof {
            use_type_invariant(self);
        }
        self.watch_url.as_str()
    }

    /// The client that requests the pages.
    pub fn client(&self) -> (r: &C)
        ensures
            *r == self.client_view(),
    {
        &self.client
    }

    /// Gives up the fetcher, handing back its client.
    pub fn into_client(self) -> (r: C)
        ensures
            r == self.client_view(),
    {
        self.client
    }

    /// The URL of the video info, which depends on whether the video is age
    /// restricted.
    pub fn get_video_info_url(&self, is_age_restricted: bool) -> (r: Result<String, Error>)
        ensures
            !is_age_restricted ==> built_url(
                r,
                url_with_params(
                    VIDEO_INFO_BASE_URL@,
                    video_info_params(
                        self.id_view(),
                        "https://youtube.com/watch?v="@ + self.id_view(),
                    ),
                ),
            ),
            is_age_restricted && !regex_compiles(STS_PATTERN@) ==> r == Err::<String, Error>(
                Error::InvalidPattern(STS_PATTERN),
            ),
            is_age_restricted && regex_compiles(STS_PATTERN@) ==> built_url(
                r,
                url_with_params(
                    VIDEO_INFO_BASE_URL@,
                    age_restricted_params(
                        self.id_view(),
                        "https://youtube.com/watch?v="@ + self.id_view(),
                    ),
                ),
            ),
    {
        let watch_url = self.watch_url();
        if is_age_restricted {
            video_info_url_age_restricted(&self.video_id, watch_url)
        } else {
            video_info_url(&self.video_id, watch_url)
        }
    }

    /// The page whose HTML names the player's script: the embed page for an
    /// age-restricted video (`Some`), else the watch page already at hand
    /// (`None`).
    pub fn js_page_url(&self, is_age_restricted: bool) -> (r: Option<String>)
        ensures
            is_age_restricted ==> (r matches Some(u) && u@ == "https://youtube.com/embed/"@
                + self.id_view()),
            !is_age_restricted ==> r is None,
    {
        if is_age_restricted {
            Some(self.video_id.embed_url())
        } else {
            None
        }
    }

    /// The fetcher as text: `VideoFetcher(<id>)`.
    pub fn to_display_string(&self) -> (r: String)
        ensures
            r@ == "VideoFetcher("@ + self.id_view() + ")"@,
    {
        let mut text = String::from_str("VideoFetcher(");
        text.append(self.video_id.as_str());
        text.append(")");
        text
    }
}

/// Two fetchers are equal when they fetch the same video; their clients are
/// not compared.
impl<C> PartialEq for VideoFetcher<C> {
    fn eq(&self, other: &VideoFetcher<C>) -> (r: bool) {
        self.video_id == other.video_id && self.watch_url == other.watch_url
    }
}

impl<C> vstd::std_specs::cmp::PartialEqSpecImpl for VideoFetcher<C> {
    open spec fn obeys_eq_spec() -> bool {
        true
    }

    open spec fn eq_spec(&self, other: &VideoFetcher<C>) -> bool {
        self.id_view() == other.id_view() && self.watch_url_view() == other.watch_url_view()
    }
}

impl<C: Clone> Clone for VideoFetcher<C> {
    fn clone(&self) -> (r: VideoFetcher<C>)
        ensures
            r.id_view() == self.id_view(),
            r.watch_url_view() == self.watch_url_view(),
    {
        proof {
            use_type_invariant(self);
        }
        VideoFetcher {
            video_id: self.video_id.clone(),
            watch_url: self.watch_url.clone(),
            client: self.client.clone(),
        }
    }
}

} // verus!
