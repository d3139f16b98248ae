//! From the address of a video page to the address of its stream manifest.

use crate::error::Failure;
use crate::resolutions::Resolutions;
use crate::substitutions::Substitutions;
use crate::text::{
    all_digits, chars_of, contains, contains_text, decimal_value, is_unsigned_integer, matches_at,
    opt_text, parses_as_usize, same_chars, same_text, starts_with, texts,
};
use vstd::prelude::*;
use vstd::string::StringExecFns;

verus! {

/// What the logic reads of a parsed URL.
pub struct UrlParts {
    /// The host as it is written in the URL, if the URL has one.
    pub host: Option<Seq<char>>,
    /// The segments of the path, if the URL can be a base.
    pub path_segments: Option<Seq<Seq<char>>>,
}

/// A parsed URL, as plain values.
#[derive(Debug)]
pub struct ParsedUrl {
    pub host: Option<String>,
    pub path_segments: Option<Vec<String>>,
}

impl View for ParsedUrl {
    type V = UrlParts;

    open spec fn view(&self) -> UrlParts {
        UrlParts {
            host: opt_text(self.host),
            path_segments: match self.path_segments {
                Some(segments) => Some(texts(segments@)),
                None => None,
            },
        }
    }
}

/// `url::ParseError`, carried from the parser to the caller as it is.
#[verifier::external_type_specification]
#[verifier::external_body]
pub struct ExParseError(url::ParseError);

/// What `url::Url::parse` makes of `text`: `None` where it refuses the text,
/// else the host and the path segments of the URL it returns.
pub uninterp spec fn parsed_url(text: Seq<char>) -> Option<UrlParts>;

/// Calls `url::Url::parse` and reads the result with `Url::host` (written
/// out through its `Display`) and `Url::path_segments`. The contract only
/// names the outcome: it is `parsed_url` of the text.
#[verifier::external_body]
fn parse_url(text: &str) -> (r: Result<ParsedUrl, url::ParseError>)
    ensures
        match r {
            Ok(parsed) => parsed_url(text@) == Some(parsed@),
            Err(_) => parsed_url(text@).is_none(),
        },
{
    let url = url::Url::parse(text)?;
    Ok(ParsedUrl {
        host: url.host().map(|h| h.to_string()),
        path_segments: url.path_segments().map(|segments| segments.map(|s| s.to_string()).collect()),
    })
}

/// `host` without a leading `www.`.
pub open spec fn without_www(host: Seq<char>) -> Seq<char> {
    if "www."@.is_prefix_of(host) {
        host.skip("www."@.len() as int)
    } else {
        host
    }
}

/// The host is that of the video site, with or without `www.` before it.
pub open spec fn is_twitch_host(host: Option<Seq<char>>) -> bool {
    match host {
        Some(h) => without_www(h) == "twitch.tv"@,
        None => false,
    }
}

/// The video identifier that a path names: the path has the two segments
/// `videos` and an unsigned decimal number, and the number as written is the
/// identifier.
pub open spec fn video_id_in(path_segments: Option<Seq<Seq<char>>>) -> Option<Seq<char>> {
    match path_segments {
        Some(s) => if s.len() == 2 && s[0] == "videos"@ && parses_as_usize(s[1]) {
            Some(s[1])
        } else {
            None
        },
        None => None,
    }
}

/// The video identifier of a parsed URL, or why it has none.
pub open spec fn video_id_of(parts: UrlParts) -> Result<Seq<char>, Failure> {
    if !is_twitch_host(parts.host) {
        Err(Failure::NotTwitchUrl)
    } else {
        match video_id_in(parts.path_segments) {
            Some(id) => Ok(id),
            None => Err(Failure::NotAVideoUrl),
        }
    }
}

/// The video identifier of a URL given as text, or why it has none.
pub open spec fn video_id_of_text(text: Seq<char>) -> Result<Seq<char>, Failure> {
    match parsed_url(text) {
        Some(parts) => video_id_of(parts),
        None => Err(Failure::InvalidUrl),
    }
}

/// The view of a text or a failure.
pub open spec fn text_result(r: Result<String, Failure>) -> Result<Seq<char>, Failure> {
    match r {
        Ok(s) => Ok(s@),
        Err(e) => Err(e),
    }
}

/// Whether the URL points at the video site.
pub fn is_twitch(url: &ParsedUrl) -> (r: bool)
    ensures
        r == is_twitch_host(url@.host),
{
    match &url.host {
        Some(h) => {
            let host = chars_of(h.as_str());
            let www = chars_of("www.");
            let site = chars_of("twitch.tv");
            if starts_with(&host, &www) {
                let r = host.len() - www.len() == site.len() && matches_at(&host, &site, www.len());
                proof {
                    let rest = host@.skip(www@.len() as int);
                    if r {
                        assert(rest =~= host@.subrange(www@.len() as int, (www@.len() + site@.len()) as int));
                    }
                    if rest == site@ {
                        assert(host@.subrange(www@.len() as int, (www@.len() + site@.len()) as int) =~= rest);
                    }
                }
                r
            } else {
                same_chars(&host, &site)
            }
        },
        None => false,
    }
}

/// The video identifier that the path of the URL names, if it names one.
pub fn extract_video_id(url: &ParsedUrl) -> (r: Option<String>)
    ensures
        opt_text(r) == video_id_in(url@.path_segments),
{
    match &url.path_segments {
        Some(segments) => {
            if segments.len() == 2 && same_text(segments[0].as_str(), "videos")
                && is_unsigned_integer(segments[1].as_str()) {
                Some(segments[1].clone())
            } else {
                None
            }
        },
        None => None,
    }
}

/// The video identifier of a parsed URL.
pub fn video_id_from_parsed(url: &ParsedUrl) -> (r: Result<String, Failure>)
    ensures
        text_result(r) == video_id_of(url@),
{
    if is_twitch(url) {
        match extract_video_id(url) {
            Some(id) => Ok(id),
            None => Err(Failure::NotAVideoUrl),
        }
    } else {
        Err(Failure::NotTwitchUrl)
    }
}

/// The video identifier of the page at `url`.
pub fn get_video_id(url: &str) -> (r: Result<String, Failure>)
    ensures
        text_result(r) == video_id_of_text(url@),
{
    match parse_url(url) {
        Ok(parsed) => video_id_from_parsed(&parsed),
        Err(_) => Err(Failure::InvalidUrl),
    }
}

/// A URL of the video site whose path is `videos` and then a number that
/// fits a `usize` has that number, digit for digit, as its video identifier.
pub proof fn lemma_video_page_yields_its_id(parts: UrlParts, digits: Seq<char>)
    requires
        parts.host == Some("twitch.tv"@) || parts.host == Some("www.twitch.tv"@),
        parts.path_segments == Some(seq!["videos"@, digits]),
        digits.len() > 0,
        all_digits(digits),
        decimal_value(digits) <= usize::MAX,
    ensures
        video_id_of(parts) == Ok::<Seq<char>, Failure>(digits),
{
    lemma_site_hosts();
    assert(digits[0] != '+');
}

/// A URL with any host but `twitch.tv` and `www.twitch.tv`, or with none, is
/// refused as not of the video site.
pub proof fn lemma_other_host_is_refused(parts: UrlParts)
    requires
        parts.host != Some("twitch.tv"@),
        parts.host != Some("www.twitch.tv"@),
    ensures
        video_id_of(parts) == Err::<Seq<char>, Failure>(Failure::NotTwitchUrl),
{
    lemma_site_hosts();
}

/// A URL of the video site whose path is anything but `videos` and then a
/// number that fits a `usize` is refused as no video: a third segment, another
/// first segment and a second segment that is no number all end there.
pub proof fn lemma_other_path_is_refused(parts: UrlParts)
    requires
        is_twitch_host(parts.host),
        match parts.path_segments {
            Some(s) => s.len() != 2 || s[0] != "videos"@ || !parses_as_usize(s[1]),
            None => true,
        },
    ensures
        video_id_of(parts) == Err::<Seq<char>, Failure>(Failure::NotAVideoUrl),
{
}

/// The hosts of the video site are `twitch.tv` and `www.twitch.tv`, and no
/// other.
pub proof fn lemma_site_hosts()
    ensures
        forall|host: Option<Seq<char>>|
            #[trigger] is_twitch_host(host) <==> (host == Some("twitch.tv"@) || host == Some(
                "www.twitch.tv"@,
            )),
{
    reveal_strlit("www.");
    reveal_strlit("twitch.tv");
    reveal_strlit("www.twitch.tv");
    assert forall|host: Option<Seq<char>>|
        #[trigger] is_twitch_host(host) <==> (host == Some("twitch.tv"@) || host == Some(
            "www.twitch.tv"@,
        )) by {
        if let Some(h) = host {
            if "www."@.is_prefix_of(h) {
                if h.skip(4) == "twitch.tv"@ {
                    assert(h =~= "www.twitch.tv"@) by {
                        assert(h.skip(4).len() == 9);
                        assert(h.len() == 13);
                        assert forall|i: int| 0 <= i < 13 implies h[i] == "www.twitch.tv"@[i] by {
                            if i < 4 {
                                assert(h.subrange(0, 4)[i] == "www."@[i]);
                            } else {
                                assert(h.skip(4)[i - 4] == "twitch.tv"@[i - 4]);
                            }
                        }
                    }
                }
                if h == "www.twitch.tv"@ {
                    assert(h.skip(4) =~= "twitch.tv"@);
                }
                assert(h != "twitch.tv"@) by {
                    assert(h.subrange(0, 4)[0] == 'w');
                }
            } else {
                assert(h != "www.twitch.tv"@) by {
                    if h == "www.twitch.tv"@ {
                        assert("www."@ =~= h.subrange(0, 4));
                    }
                }
            }
        }
    }
}

/// The record that the metadata service returns for a channel.
#[derive(Debug)]
pub struct RawChannel {
    pub name: String,
}

/// The record that the metadata service returns for a video.
#[derive(Debug)]
pub struct RawVideoInfo {
    pub title: String,
    pub animated_preview_url: String,
    pub channel: RawChannel,
    pub resolutions: Resolutions,
    pub broadcast_type: String,
}

/// A `RawVideoInfo` as mathematical values.
pub struct RawVideoInfoView {
    pub title: Seq<char>,
    pub animated_preview_url: Seq<char>,
    pub channel_name: Seq<char>,
    pub resolutions: Map<Seq<char>, Seq<char>>,
    pub broadcast_type: Seq<char>,
}

impl View for RawVideoInfo {
    type V = RawVideoInfoView;

    open spec fn view(&self) -> RawVideoInfoView {
        RawVideoInfoView {
            title: self.title@,
            animated_preview_url: self.animated_preview_url@,
            channel_name: self.channel.name@,
            resolutions: self.resolutions@,
            broadcast_type: self.broadcast_type@,
        }
    }
}

/// What is known of a video once its metadata has been fetched.
#[derive(Debug)]
pub struct VideoInfo {
    pub title: String,
    /// The host that serves the video's files.
    pub domain: String,
    /// The path token under which the host keeps the video's files.
    pub special_id: String,
    /// The video identifier, as the page address wrote it.
    pub id: String,
    pub channel_name: String,
    pub resolutions: Resolutions,
    /// `highlight`, `upload`, or anything else for an ordinary archive.
    pub broadcast_type: String,
}

/// A `VideoInfo` as mathematical values.
pub struct VideoInfoView {
    pub title: Seq<char>,
    pub domain: Seq<char>,
    pub special_id: Seq<char>,
    pub id: Seq<char>,
    pub channel_name: Seq<char>,
    pub resolutions: Map<Seq<char>, Seq<char>>,
    pub broadcast_type: Seq<char>,
}

impl View for VideoInfo {
    type V = VideoInfoView;

    open spec fn view(&self) -> VideoInfoView {
        VideoInfoView {
            title: self.title@,
            domain: self.domain@,
            special_id: self.special_id@,
            id: self.id@,
            channel_name: self.channel_name@,
            resolutions: self.resolutions@,
            broadcast_type: self.broadcast_type@,
        }
    }
}

/// The view of a video's record or a failure.
pub open spec fn info_result(r: Result<VideoInfo, Failure>) -> Result<VideoInfoView, Failure> {
    match r {
        Ok(info) => Ok(info@),
        Err(e) => Err(e),
    }
}

/// How many segments stand before the first one that contains `storyboards`:
/// all of them, if none does.
pub open spec fn plain_prefix_len(segments: Seq<Seq<char>>) -> nat
    decreases segments.len(),
{
    if segments.len() == 0 || contains_text(segments.first(), "storyboards"@) {
        0
    } else {
        1 + plain_prefix_len(segments.drop_first())
    }
}

/// The segment just before the first one that contains `storyboards`;
/// `None` if no segment contains it, or if the first segment does.
pub open spec fn special_id_in(segments: Seq<Seq<char>>) -> Option<Seq<char>> {
    let n = plain_prefix_len(segments);
    if 0 < n < segments.len() {
        Some(segments[n - 1])
    } else {
        None
    }
}

/// The segment at `k` is the first one that contains `storyboards`.
pub open spec fn is_first_storyboards(segments: Seq<Seq<char>>, k: int) -> bool {
    &&& 0 <= k < segments.len()
    &&& contains_text(segments[k], "storyboards"@)
    &&& forall|j: int| 0 <= j < k ==> !contains_text(#[trigger] segments[j], "storyboards"@)
}

/// No segment before `plain_prefix_len` contains `storyboards`, and the
/// segment at that place does, if there is one.
pub proof fn lemma_plain_prefix_len(segments: Seq<Seq<char>>)
    ensures
        plain_prefix_len(segments) <= segments.len(),
        forall|j: int|
            0 <= j < plain_prefix_len(segments) ==> !contains_text(
                #[trigger] segments[j],
                "storyboards"@,
            ),
        plain_prefix_len(segments) < segments.len() ==> contains_text(
            segments[plain_prefix_len(segments) as int],
            "storyboards"@,
        ),
    decreases segments.len(),
{
    if segments.len() > 0 && !contains_text(segments.first(), "storyboards"@) {
        let rest = segments.drop_first();
        lemma_plain_prefix_len(rest);
        assert forall|j: int| 0 <= j < plain_prefix_len(segments) implies !contains_text(
            #[trigger] segments[j],
            "storyboards"@,
        ) by {
            if j > 0 {
                assert(rest[j - 1] == segments[j]);
            }
        }
        if plain_prefix_len(segments) < segments.len() {
            assert(rest[plain_prefix_len(rest) as int] == segments[plain_prefix_len(segments) as int]);
        }
    }
}

/// Where the first segment that contains `storyboards` stands at `k`, the
/// special identifier is the segment just before it, whatever follows; it is
/// missing if nothing stands before.
pub proof fn lemma_special_id_precedes_storyboards(segments: Seq<Seq<char>>, k: int)
    requires
        is_first_storyboards(segments, k),
    ensures
        special_id_in(segments) == (if k == 0 {
            None
        } else {
            Some(segments[k - 1])
        }),
{
    lemma_plain_prefix_len(segments);
    let n = plain_prefix_len(segments) as int;
    if n < k {
        assert(!contains_text(segments[n], "storyboards"@));
    }
    if k < n {
        assert(!contains_text(segments[k], "storyboards"@));
    }
}

/// Where no segment contains `storyboards`, there is no special identifier.
pub proof fn lemma_no_storyboards_no_special_id(segments: Seq<Seq<char>>)
    requires
        forall|j: int| 0 <= j < segments.len() ==> !contains_text(#[trigger] segments[j], "storyboards"@),
    ensures
        special_id_in(segments).is_none(),
{
    lemma_plain_prefix_len(segments);
}

/// The record of a video, from what the service returned for it, the
/// identifier it was asked by, and the parsed address of its animated preview.
/// The preview's host becomes the host of the files, and the segment before
/// its storyboards the special identifier; a preview that was refused as a URL,
/// or that lacks either, makes the data invalid.
pub open spec fn video_info_of(raw: RawVideoInfoView, id: Seq<char>, preview: Option<UrlParts>) -> Result<
    VideoInfoView,
    Failure,
> {
    match preview {
        Some(UrlParts { host: Some(domain), path_segments: Some(segments) }) => match special_id_in(
            segments,
        ) {
            Some(special_id) => Ok(
                VideoInfoView {
                    title: raw.title,
                    domain,
                    special_id,
                    id,
                    channel_name: raw.channel_name,
                    resolutions: raw.resolutions,
                    broadcast_type: raw.broadcast_type,
                },
            ),
            None => Err(Failure::InvalidResponseData),
        },
        _ => Err(Failure::InvalidResponseData),
    }
}

/// The address of the manifest of `info` in the resolution `res`.
pub open spec fn manifest_url(info: VideoInfoView, res: Seq<char>) -> Seq<char> {
    if info.broadcast_type == "highlight"@ {
        "https://"@ + info.domain + "/"@ + info.special_id + "/"@ + res + "/highlight-"@ + info.id
            + ".m3u8"@
    } else if info.broadcast_type == "upload"@ {
        "https://"@ + info.domain + "/"@ + info.channel_name + "/"@ + info.id + "/"@
            + info.special_id + "/"@ + res + "/index-dvr.m3u8"@
    } else {
        "https://"@ + info.domain + "/"@ + info.special_id + "/"@ + res + "/index-dvr.m3u8"@
    }
}

/// `base` with the six values that a video's record gives to templates.
pub open spec fn with_info(base: Map<Seq<char>, Seq<char>>, info: VideoInfoView) -> Map<
    Seq<char>,
    Seq<char>,
> {
    base.insert("title"@, info.title).insert("domain"@, info.domain).insert(
        "special_id"@,
        info.special_id,
    ).insert("id"@, info.id).insert("channel_name"@, info.channel_name).insert(
        "broadcast_type"@,
        info.broadcast_type,
    )
}

/// The special identifier among the path segments of a preview address.
#[verifier::loop_isolation(false)]
pub fn special_id(segments: &Vec<String>) -> (r: Option<String>)
    ensures
        opt_text(r) == special_id_in(texts(segments@)),
{
    let ghost all = texts(segments@);
    let mut i: usize = 0;
    assert(all.skip(0) =~= all);
    while i < segments.len()
        invariant
            i <= segments.len(),
            plain_prefix_len(all) == i + plain_prefix_len(all.skip(i as int)),
        decreases segments.len() - i,
    {
        assert(all.skip(i as int).first() == segments@[i as int]@);
        if contains(segments[i].as_str(), "storyboards") {
            if i == 0 {
                return None;
            }
            return Some(segments[i - 1].clone());
        }
        assert(all.skip(i as int).drop_first() =~= all.skip(i + 1));
        i += 1;
    }
    None
}

impl VideoInfo {
    /// The record of a video whose preview address has been parsed.
    pub fn from_parsed(raw: RawVideoInfo, id: String, preview: &ParsedUrl) -> (r: Result<
        Self,
        Failure,
    >)
        ensures
            info_result(r) == video_info_of(raw@, id@, Some(preview@)),
    {
        let special_id = match &preview.path_segments {
            Some(segments) => match special_id(segments) {
                Some(s) => s,
                None => {
                    return Err(Failure::InvalidResponseData);
                },
            },
            None => {
                return Err(Failure::InvalidResponseData);
            },
        };
        let domain = match &preview.host {
            Some(d) => d.clone(),
            None => {
                return Err(Failure::InvalidResponseData);
            },
        };
        Ok(
            VideoInfo {
                title: raw.title,
                domain,
                special_id,
                id,
                channel_name: raw.channel.name,
                resolutions: raw.resolutions,
                broadcast_type: raw.broadcast_type,
            },
        )
    }

    /// The record of a video, from what the service returned for it and the
    /// identifier it was asked by.
    pub fn from_raw(raw: RawVideoInfo, id: String) -> (r: Result<Self, Failure>)
        ensures
            info_result(r) == video_info_of(raw@, id@, parsed_url(raw.animated_preview_url@)),
    {
        match parse_url(raw.animated_preview_url.as_str()) {
            Ok(preview) => Self::from_parsed(raw, id, &preview),
            Err(_) => Err(Failure::InvalidResponseData),
        }
    }

    /// The address of the video's manifest in the resolution `res`.
    pub fn url(&self, res: &str) -> (r: String)
        ensures
            r@ == manifest_url(self@, res@),
    {
        let mut out = String::from_str("https://");
        out.append(self.domain.as_str());
        out.append("/");
        if same_text(self.broadcast_type.as_str(), "highlight") {
            out.append(self.special_id.as_str());
            out.append("/");
            out.append(res);
            out.append("/highlight-");
            out.append(self.id.as_str());
            out.append(".m3u8");
        } else if same_text(self.broadcast_type.as_str(), "upload") {
            out.append(self.channel_name.as_str());
            out.append("/");
            out.append(self.id.as_str());
            out.append("/");
            out.append(self.special_id.as_str());
            out.append("/");
            out.append(res);
            out.append("/index-dvr.m3u8");
        } else {
            out.append(self.special_id.as_str());
            out.append("/");
            out.append(res);
            out.append("/index-dvr.m3u8");
        }
        out
    }

    /// Adds the video's values to `map`, each under its name.
    pub fn into_hashmap_in_place(self, map: &mut Substitutions)
        ensures
            final(map)@ == with_info(old(map)@, self@),
    {
        map.insert("title", self.title);
        map.insert("domain", self.domain);
        map.insert("special_id", self.special_id);
        map.insert("id", self.id);
        map.insert("channel_name", self.channel_name);
        map.insert("broadcast_type", self.broadcast_type);
    }

    /// The video's values, each under its name.
    pub fn into_hashmap(self) -> (r: Substitutions)
        ensures
            r@ == with_info(Map::<Seq<char>, Seq<char>>::empty(), self@),
    {
        let mut res = Substitutions::new();
        self.into_hashmap_in_place(&mut res);
        res
    }
}

/// A header of a request.
#[derive(Debug)]
pub struct Header {
    pub name: String,
    pub value: String,
}

impl View for Header {
    type V = (Seq<char>, Seq<char>);

    open spec fn view(&self) -> (Seq<char>, Seq<char>) {
        (self.name@, self.value@)
    }
}

/// A request to the metadata service: one GET.
#[derive(Debug)]
pub struct Request {
    pub url: String,
    pub headers: Vec<Header>,
}

/// The address at which the metadata service keeps the video `id`.
pub open spec fn metadata_url(id: Seq<char>) -> Seq<char> {
    "https://api.twitch.tv/kraken/videos/"@ + id
}

/// The request that asks the metadata service for the video `id`: its
/// address, the client identifier, and the version of the interface.
pub fn metadata_request(id: &str) -> (r: Request)
    ensures
        r.url@ == metadata_url(id@),
        r.headers@.len() == 2,
        r.headers@[0]@ == ("Client-Id"@, "kimne78kx3ncx6brgo4mv6wki5h1ko"@),
        r.headers@[1]@ == ("Accept"@, "application/vnd.twitchtv.v5+json"@),
{
    let mut url = String::from_str("https://api.twitch.tv/kraken/videos/");
    url.append(id);
    let mut headers: Vec<Header> = Vec::new();
    headers.push(
        Header {
            name: String::from_str("Client-Id"),
            value: String::from_str("kimne78kx3ncx6brgo4mv6wki5h1ko"),
        },
    );
    headers.push(
        Header {
            name: String::from_str("Accept"),
            value: String::from_str("application/vnd.twitchtv.v5+json"),
        },
    );
    Request { url, headers }
}

} // verus!
