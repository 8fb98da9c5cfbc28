use rustube::error::Error;
use rustube::fetcher::{
    get_ytplayer_js, is_age_restricted, js_url, parse_for_object, playability_status_candidates,
    resolve_player_response, video_info_url, video_info_url_age_restricted,
    ytplayer_config_candidates, VideoFetcher, PLAYABILITY_STATUS_PATTERN,
};
use rustube::id::IdBuf;
use rustube::playability::{check_availability, PlayabilityStatus};

const ID: &str = "5jlI4uzZGjU";

fn id() -> IdBuf {
    IdBuf::from_string(ID.to_string()).unwrap()
}

#[test]
fn age_restriction_marker() {
    assert!(is_age_restricted(r#"<meta property="og:restrictions:age" content="18+">"#).unwrap());
    assert!(!is_age_restricted("<meta property=\"og:title\" content=\"x\">").unwrap());
}

#[test]
fn object_after_pattern() {
    let html = r#"<script>var ytplayer = {}; ytplayer.config = {"args": {"x": 1}};</script>"#;
    assert_eq!(
        parse_for_object(html, r"ytplayer\.config\s*=\s*").unwrap(),
        r#"{"args": {"x": 1}}"#
    );
}

#[test]
fn object_after_pattern_that_does_not_match() {
    match parse_for_object("nothing", r"ytplayer\.config\s*=\s*") {
        Err(Error::Internal(m)) => assert_eq!(m, "The regex does not match"),
        other => panic!("unexpected {:?}", other),
    }
}

#[test]
fn object_after_pattern_without_object() {
    match parse_for_object("ytplayer.config = 12;", r"ytplayer\.config\s*=\s*") {
        Err(Error::Internal(m)) => assert_eq!(m, "cannot parse a json object from an empty string"),
        other => panic!("unexpected {:?}", other),
    }
}

#[test]
fn invalid_pattern_is_reported() {
    match parse_for_object("x", "(unclosed") {
        Err(Error::InvalidPattern(p)) => assert_eq!(p, "(unclosed"),
        other => panic!("unexpected {:?}", other),
    }
}

#[test]
fn playability_candidates_in_page_order() {
    let html = format!(
        "{}{}{}",
        r#"a "playabilityStatus": {"status": "OK"} "#,
        r#"b playabilityStatus = {"status": "LOGIN_REQUIRED", "reason": "x"} "#,
        r#"c 'playabilityStatus': "#
    );
    let found = playability_status_candidates(&html).unwrap();
    assert_eq!(
        found,
        vec![r#"{"status": "OK"}"#, r#"{"status": "LOGIN_REQUIRED", "reason": "x"}"#]
    );
    assert_eq!(PLAYABILITY_STATUS_PATTERN, r#"["']?playabilityStatus["']?\s*[:=]\s*"#);
}

#[test]
fn playability_candidates_none() {
    assert!(playability_status_candidates("<html></html>").unwrap().is_empty());
}

#[test]
fn config_candidates_in_pattern_order() {
    let html = format!(
        "{}{}",
        r#"ytInitialPlayerResponse = {"assets": {"js": "/b.js"}};"#,
        r#"ytplayer.config = {"args": {}};"#
    );
    let found = ytplayer_config_candidates(&html).unwrap();
    assert_eq!(found, vec![r#"{"args": {}}"#, r#"{"assets": {"js": "/b.js"}}"#]);
}

#[test]
fn config_candidates_from_set_config() {
    let html = r#"yt.setConfig({'PLAYER_CONFIG': {"args": {"a": 1}}});"#;
    let found = ytplayer_config_candidates(html).unwrap();
    assert_eq!(found, vec![r#"{"args": {"a": 1}}"#]);
}

#[test]
fn player_js_path_from_page() {
    let html = r#"<script src="/s/player/4a1799bd/player_ias.vflset/en_US/base.js"></script>"#;
    let path = get_ytplayer_js(html).unwrap();
    assert_eq!(path, "/s/player/4a1799bd/player_ias.vflset/en_US/base.js");
    assert!(html.contains(path));
}

#[test]
fn player_js_path_missing() {
    match get_ytplayer_js("<html></html>") {
        Err(Error::UnexpectedResponse(m)) => {
            assert_eq!(m, "could not extract the ytplayer-javascript url from the watch html")
        }
        other => panic!("unexpected {:?}", other),
    }
}

#[test]
fn js_url_prefers_the_configuration() {
    let html = r#"src="/s/player/aaaa/x/base.js""#;
    assert_eq!(
        js_url(html, Some("/s/player/bbbb/y/base.js")).unwrap(),
        "https://youtube.com/s/player/bbbb/y/base.js"
    );
    assert_eq!(js_url(html, None).unwrap(), "https://youtube.com/s/player/aaaa/x/base.js");
}

#[test]
fn js_url_that_does_not_parse() {
    match js_url("", Some(":notaport/base.js")) {
        Err(Error::UrlParse(_)) => {}
        other => panic!("unexpected {:?}", other),
    }
}

#[test]
fn video_info_url_query() {
    let watch = "https://youtube.com/watch?v=5jlI4uzZGjU";
    assert_eq!(
        video_info_url(&id(), watch).unwrap(),
        "https://youtube.com/get_video_info?video_id=5jlI4uzZGjU&ps=default&eurl=https%3A%2F%2Fyoutube.com%2Fwatch%3Fv%3D5jlI4uzZGjU&hl=en_US"
    );
}

#[test]
fn video_info_url_for_age_restricted_video() {
    let watch = "https://youtube.com/watch?v=5jlI4uzZGjU";
    assert_eq!(
        video_info_url_age_restricted(&id(), watch).unwrap(),
        "https://youtube.com/get_video_info?video_id=5jlI4uzZGjU&eurl=https%3A%2F%2Fyoutube.googleapis.com%2Fv%2F5jlI4uzZGjU&sts="
    );
    assert_eq!(
        video_info_url_age_restricted(&id(), r#"x "sts" : 18912 y"#).unwrap(),
        "https://youtube.com/get_video_info?video_id=5jlI4uzZGjU&eurl=https%3A%2F%2Fyoutube.googleapis.com%2Fv%2F5jlI4uzZGjU&sts=18912"
    );
}

#[test]
fn availability_decisions() {
    assert!(check_availability(Some(PlayabilityStatus::Playable), false).is_ok());
    assert!(check_availability(Some(PlayabilityStatus::Playable), true).is_ok());
    assert!(check_availability(Some(PlayabilityStatus::LoginRequired { reason: None }), true).is_ok());
    match check_availability(Some(PlayabilityStatus::LoginRequired { reason: None }), false) {
        Err(Error::VideoUnavailable(PlayabilityStatus::LoginRequired { reason: None })) => {}
        other => panic!("unexpected {:?}", other),
    }
    match check_availability(
        Some(PlayabilityStatus::Unplayable { reason: Some("private".to_string()) }),
        true,
    ) {
        Err(Error::VideoUnavailable(PlayabilityStatus::Unplayable { reason: Some(r) })) => {
            assert_eq!(r, "private")
        }
        other => panic!("unexpected {:?}", other),
    }
    match check_availability(Some(PlayabilityStatus::Error { reason: None }), false) {
        Err(Error::VideoUnavailable(PlayabilityStatus::Error { .. })) => {}
        other => panic!("unexpected {:?}", other),
    }
    match check_availability(Some(PlayabilityStatus::LiveStreamOffline { reason: None }), true) {
        Err(Error::VideoUnavailable(PlayabilityStatus::LiveStreamOffline { .. })) => {}
        other => panic!("unexpected {:?}", other),
    }
    match check_availability(None, false) {
        Err(Error::UnexpectedResponse(m)) => {
            assert_eq!(m, "watch html did not contain a PlayabilityStatus")
        }
        other => panic!("unexpected {:?}", other),
    }
}

#[test]
fn player_response_resolution() {
    assert_eq!(resolve_player_response(1, true, Some(2)).unwrap(), 1);
    assert_eq!(resolve_player_response(1, true, None).unwrap(), 1);
    assert_eq!(resolve_player_response(1, false, Some(2)).unwrap(), 2);
    match resolve_player_response(1, false, None) {
        Err(Error::UnexpectedResponse(m)) => assert_eq!(
            m,
            "StreamingData is none and the watch html did not contain a valid PlayerResponse"
        ),
        other => panic!("unexpected {:?}", other),
    }
}

#[test]
fn fetcher_from_id() {
    let fetcher = VideoFetcher::from_id_with_client(id(), 7u32);
    assert_eq!(fetcher.video_id().as_str(), ID);
    assert_eq!(fetcher.watch_url(), "https://youtube.com/watch?v=5jlI4uzZGjU");
    assert_eq!(*fetcher.client(), 7);
    assert_eq!(fetcher.to_display_string(), "VideoFetcher(5jlI4uzZGjU)");
    assert_eq!(fetcher.js_page_url(true).unwrap(), "https://youtube.com/embed/5jlI4uzZGjU");
    assert!(fetcher.js_page_url(false).is_none());
    assert_eq!(
        fetcher.get_video_info_url(false).unwrap(),
        "https://youtube.com/get_video_info?video_id=5jlI4uzZGjU&ps=default&eurl=https%3A%2F%2Fyoutube.com%2Fwatch%3Fv%3D5jlI4uzZGjU&hl=en_US"
    );
    assert_eq!(
        fetcher.get_video_info_url(true).unwrap(),
        "https://youtube.com/get_video_info?video_id=5jlI4uzZGjU&eurl=https%3A%2F%2Fyoutube.googleapis.com%2Fv%2F5jlI4uzZGjU&sts="
    );
}

#[test]
fn fetchers_compare_by_video_not_client() {
    let a = VideoFetcher::from_id_with_client(id(), 1u8);
    let b = VideoFetcher::from_id_with_client(id(), 2u8);
    let c = VideoFetcher::from_id_with_client(IdBuf::from_string("aaaaaaaaaaa".to_string()).unwrap(), 1u8);
    assert!(a == b);
    assert!(a != c);
    let d = a.clone();
    assert!(d == a);
    assert_eq!(*d.client(), 1);
    assert_eq!(d.into_client(), 1);
}

#[test]
fn js_url_is_normalized_by_the_url_parser() {
    assert_eq!(
        js_url("", Some("/s/./player/x/../y/base.js")).unwrap(),
        "https://youtube.com/s/player/y/base.js"
    );
}

#[test]
fn candidates_are_whole_objects() {
    let html = r#"playabilityStatus: {"a": {"b": "}"}} tail "playabilityStatus" = {"c": []}"#;
    for candidate in playability_status_candidates(html).unwrap() {
        assert_eq!(rustube::json::json_object(candidate).unwrap(), candidate);
    }
}
