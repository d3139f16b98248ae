use twitchvod::error::Failure;
use twitchvod::info::{extract_video_id, get_video_id, is_twitch, video_id_from_parsed, ParsedUrl};

fn parsed(host: Option<&str>, segments: Option<Vec<&str>>) -> ParsedUrl {
    ParsedUrl {
        host: host.map(|h| h.to_string()),
        path_segments: segments.map(|s| s.into_iter().map(|x| x.to_string()).collect()),
    }
}

#[test]
fn video_page_yields_its_digits() {
    assert_eq!(get_video_id("https://twitch.tv/videos/123456789"), Ok("123456789".to_string()));
    assert_eq!(get_video_id("https://www.twitch.tv/videos/123456789"), Ok("123456789".to_string()));
    assert_eq!(get_video_id("https://www.twitch.tv/videos/1"), Ok("1".to_string()));
}

#[test]
fn leading_zeros_are_kept() {
    assert_eq!(get_video_id("https://twitch.tv/videos/000123"), Ok("000123".to_string()));
}

#[test]
fn query_and_fragment_do_not_matter() {
    assert_eq!(get_video_id("https://www.twitch.tv/videos/42?t=1h2m#top"), Ok("42".to_string()));
}

#[test]
fn host_is_compared_as_the_parser_writes_it() {
    assert_eq!(get_video_id("https://TWITCH.TV/videos/7"), Ok("7".to_string()));
    assert_eq!(get_video_id("http://twitch.tv:8080/videos/7"), Ok("7".to_string()));
}

#[test]
fn other_hosts_are_not_twitch() {
    assert_eq!(get_video_id("https://example.com/videos/123"), Err(Failure::NotTwitchUrl));
    assert_eq!(get_video_id("https://twitch.tv.example.com/videos/123"), Err(Failure::NotTwitchUrl));
    assert_eq!(get_video_id("https://www.www.twitch.tv/videos/123"), Err(Failure::NotTwitchUrl));
    assert_eq!(get_video_id("https://m.twitch.tv/videos/123"), Err(Failure::NotTwitchUrl));
    assert_eq!(get_video_id("https://192.168.0.1/videos/123"), Err(Failure::NotTwitchUrl));
}

#[test]
fn a_url_without_host_is_not_twitch() {
    assert_eq!(get_video_id("mailto:someone@twitch.tv"), Err(Failure::NotTwitchUrl));
    assert_eq!(get_video_id("data:text/plain,videos/123"), Err(Failure::NotTwitchUrl));
}

#[test]
fn other_paths_are_no_video() {
    assert_eq!(get_video_id("https://twitch.tv/videos/123/extra"), Err(Failure::NotAVideoUrl));
    assert_eq!(get_video_id("https://twitch.tv/other/123"), Err(Failure::NotAVideoUrl));
    assert_eq!(get_video_id("https://twitch.tv/videos/notanumber"), Err(Failure::NotAVideoUrl));
    assert_eq!(get_video_id("https://www.twitch.tv/videos/123/extra"), Err(Failure::NotAVideoUrl));
}

#[test]
fn short_and_empty_paths_are_no_video() {
    assert_eq!(get_video_id("https://twitch.tv"), Err(Failure::NotAVideoUrl));
    assert_eq!(get_video_id("https://twitch.tv/"), Err(Failure::NotAVideoUrl));
    assert_eq!(get_video_id("https://twitch.tv/videos"), Err(Failure::NotAVideoUrl));
    assert_eq!(get_video_id("https://twitch.tv/videos/"), Err(Failure::NotAVideoUrl));
    assert_eq!(get_video_id("https://twitch.tv/videos/123/"), Err(Failure::NotAVideoUrl));
}

#[test]
fn a_number_must_be_all_digits() {
    assert_eq!(get_video_id("https://twitch.tv/videos/12a"), Err(Failure::NotAVideoUrl));
    assert_eq!(get_video_id("https://twitch.tv/videos/-12"), Err(Failure::NotAVideoUrl));
    assert_eq!(get_video_id("https://twitch.tv/videos/1_000"), Err(Failure::NotAVideoUrl));
    assert_eq!(get_video_id("https://twitch.tv/videos/+"), Err(Failure::NotAVideoUrl));
}

#[test]
fn a_plus_sign_may_lead_the_number() {
    assert_eq!(get_video_id("https://twitch.tv/videos/+123"), Ok("+123".to_string()));
}

#[test]
fn a_number_must_fit_the_machine_word() {
    let largest = format!("https://twitch.tv/videos/{}", usize::MAX);
    assert_eq!(get_video_id(&largest), Ok(usize::MAX.to_string()));
    let too_large = format!("https://twitch.tv/videos/{}0", usize::MAX);
    assert_eq!(get_video_id(&too_large), Err(Failure::NotAVideoUrl));
    assert_eq!(
        get_video_id("https://twitch.tv/videos/99999999999999999999999999999999999999999"),
        Err(Failure::NotAVideoUrl)
    );
}

#[test]
fn text_that_is_no_url_is_invalid() {
    assert_eq!(get_video_id("not a url"), Err(Failure::InvalidUrl));
    assert_eq!(get_video_id(""), Err(Failure::InvalidUrl));
    assert_eq!(get_video_id("twitch.tv/videos/123"), Err(Failure::InvalidUrl));
    assert_eq!(get_video_id("https://"), Err(Failure::InvalidUrl));
}

#[test]
fn the_host_check_comes_before_the_path_check() {
    assert_eq!(get_video_id("https://example.com/other"), Err(Failure::NotTwitchUrl));
}

#[test]
fn parsed_parts_decide_alone() {
    let url = parsed(Some("www.twitch.tv"), Some(vec!["videos", "987"]));
    assert!(is_twitch(&url));
    assert_eq!(extract_video_id(&url), Some("987".to_string()));
    assert_eq!(video_id_from_parsed(&url), Ok("987".to_string()));

    let url = parsed(Some("twitch.tv"), Some(vec!["videos", "987", ""]));
    assert!(is_twitch(&url));
    assert_eq!(extract_video_id(&url), None);
    assert_eq!(video_id_from_parsed(&url), Err(Failure::NotAVideoUrl));

    let url = parsed(Some("twitch.tv"), None);
    assert_eq!(video_id_from_parsed(&url), Err(Failure::NotAVideoUrl));

    let url = parsed(None, Some(vec!["videos", "987"]));
    assert!(!is_twitch(&url));
    assert_eq!(video_id_from_parsed(&url), Err(Failure::NotTwitchUrl));
}

#[test]
fn only_one_www_is_taken_off() {
    assert!(is_twitch(&parsed(Some("twitch.tv"), None)));
    assert!(is_twitch(&parsed(Some("www.twitch.tv"), None)));
    assert!(!is_twitch(&parsed(Some("www.www.twitch.tv"), None)));
    assert!(!is_twitch(&parsed(Some("www."), None)));
    assert!(!is_twitch(&parsed(Some(""), None)));
    assert!(!is_twitch(&parsed(Some("twitch.tv."), None)));
    assert!(!is_twitch(&parsed(Some("wwwtwitch.tv"), None)));
}
