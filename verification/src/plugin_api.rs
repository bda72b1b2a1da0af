//! The plugin's operations, as conversations with the host.
//!
//! An operation starts with one of the functions named after it and goes on
//! in steps: each [`Step`] says what the host is to do next, and hands out a
//! value whose `resume` takes the reply and gives the step after it. An
//! operation ends with [`Step::Done`].
//!
//! Asking the SoundCloud API takes a client id. It is read from the plugin's
//! configuration; where none is stored there, it is looked for in the bundles
//! of the SoundCloud homepage, and stored for the next time.

use vstd::prelude::*;
use vstd::string::*;

use crate::api::{
    best_transcoding, build_resolve_request, build_stream_request, get_text, has_protocol,
    law_progressive_is_preferred, pick_best_transcoding, resolve_url, resource_id, status_error, status_ok, user_resource_id,
    user_tracks_url, with_client_id, HttpRequest, HttpResponse, ResolveResponse, Track,
    TrackCollectionResponse, Transcoding, User,
};
use crate::artist::{kept, next_page, PageStep, TrackPager, MAX_ARTIST_TRACK_PAGES};
use crate::client_id::{
    asset_urls, client_id_in, distinct, extract_client_id, extract_js_urls, string_texts,
};
use crate::error::PluginError;
use crate::extractor::{
    build_ytdlp_download_request, download_text, last_line, parse_download_path_from_stdout,
    shortened_stderr, YtDlpResponse,
};
use crate::json::{json_string, json_text};
use crate::text::{same_text, split};
use crate::url_matcher::{kind_of, UrlKind};
use crate::{
    artist_response, build_artist_response, build_playlist_response,
    build_single_track_response, ensure_playlist, ensure_soundcloud_url, ensure_track, flag_text,
    playlist_response, response_to_extract_links, single_track_response, ExtractLinksResponse,
};

verus! {

// ── Steps ─────────────────────────────────────────────────────────────────────

/// What is to be made of a resolved resource.
#[derive(Debug, Clone, Copy, PartialEq, Eq, Structural)]
pub enum Goal {
    /// Whatever the URL stands for.
    Links,
    /// The entries of a collection.
    Playlist,
    /// A single track.
    Track,
    /// The stream URL of a track.
    StreamUrl,
}

/// What the client id is needed for.
pub enum Want {
    /// To resolve a public URL.
    Resolve { goal: Goal, url: String },
    /// To list the tracks of an artist.
    Tracks { user: User },
    /// To resolve the template URL of a transcoding.
    Stream { template: String },
}

/// What the host is to do next.
pub enum Step {
    /// Read the configuration value stored under `key`.
    ReadConfig { key: String, then: AfterConfig },
    /// Store a configuration entry, given in JSON. Whether that succeeds
    /// makes no difference.
    WriteConfig { entry: String, then: AfterWrite },
    /// Perform an HTTP request, given in JSON.
    SendHttp { request: String, then: AfterHttp },
    /// Decode the body of an answer of `/resolve`.
    DecodeResolve { body: String, then: AfterResolve },
    /// Decode a page of an artist's tracks.
    DecodeTracks { body: String, then: AfterTracks },
    /// Decode the answer of a transcoding's template URL: its `url`.
    DecodeStreamUrl { body: String, then: AfterStreamUrl },
    /// Run yt-dlp as a request, given in JSON, says.
    RunYtDlp { request: String, then: AfterYtDlp },
    /// Nothing: this is the result.
    Done(Outcome),
}

/// What an operation results in.
pub enum Outcome {
    /// The resolved media resource.
    Links(ExtractLinksResponse),
    /// A text: a stream URL or a file path.
    Text(String),
    /// An error of the plugin.
    Failed(PluginError),
    /// A host function failed, with its own message.
    HostFailed(String),
}

/// Goes on with the configuration value.
pub struct AfterConfig {
    pub want: Want,
}

/// Goes on once the configuration entry has been handed over.
pub struct AfterWrite {
    pub want: Want,
    pub client_id: String,
}

/// Goes on with the answer to an HTTP request.
pub enum AfterHttp {
    /// The SoundCloud homepage.
    Home { want: Want },
    /// The latest of the first `tried` bundles of `urls`; `last_error` is
    /// what the latest fetch that failed, failed with.
    Bundle { want: Want, urls: Vec<String>, tried: usize, last_error: Option<PluginError> },
    /// An answer of `/resolve`.
    Resolve { goal: Goal },
    /// A page of an artist's tracks.
    Page { pager: TrackPager },
    /// The answer of a transcoding's template URL.
    Stream,
}

/// Goes on with what `/resolve` answered.
pub struct AfterResolve {
    pub goal: Goal,
}

/// Goes on with a page of an artist's tracks.
pub struct AfterTracks {
    pub pager: TrackPager,
}

/// Goes on with the stream URL.
pub struct AfterStreamUrl {}

/// Goes on with what yt-dlp left behind.
pub struct AfterYtDlp {}

/// What came of an HTTP request.
pub enum HttpReply {
    /// The host function failed, with this message.
    HostError(String),
    /// The host's reply could not be decoded, for this reason.
    BadEnvelope(String),
    /// The host's reply.
    Response(HttpResponse),
}

/// What came of running yt-dlp.
pub enum YtDlpReply {
    /// The host function failed, with this message.
    HostError(String),
    /// The host's reply could not be decoded.
    BadEnvelope(serde_json::Error),
    /// The host's reply.
    Response(YtDlpResponse),
}

// ── Model ─────────────────────────────────────────────────────────────────────

/// The page that names the bundles.
pub open spec fn homepage() -> Seq<char> {
    "https://soundcloud.com/"@
}

/// The operation is over with this outcome: the plugin refuses the resource,
/// for the given reason.
pub open spec fn refuses(step: Step, reason: Seq<char>) -> bool {
    step matches Step::Done(Outcome::Failed(PluginError::UnsupportedUrl(m))) && m@ == reason
}

/// The operation is over: the URL is of a kind that it does not take.
pub open spec fn refuses_kind(step: Step, kind: UrlKind, url: Seq<char>) -> bool {
    step matches Step::Done(
        Outcome::Failed(PluginError::UnsupportedResourceKind { kind: k, url: u }),
    ) && k == kind && u@ == url
}

/// The operation is over, with these links.
pub open spec fn answers(step: Step, links: crate::ResponseModel) -> bool {
    step matches Step::Done(Outcome::Links(l)) && l@ == links
}

/// The stored client id is asked for, in order to resolve `url`.
pub open spec fn asks_to_resolve(step: Step, goal: Goal, url: Seq<char>) -> bool {
    step matches Step::ReadConfig { key, then } && key@ == "client_id"@ && (then.want matches
        Want::Resolve { goal: g, url: u } && g == goal && u@ == url)
}

/// The stored client id is asked for, in order to list the tracks of `user`.
pub open spec fn asks_for_tracks(step: Step, user: User) -> bool {
    step matches Step::ReadConfig { key, then } && key@ == "client_id"@ && then.want
        == (Want::Tracks { user })
}

/// The stored client id is asked for, in order to resolve a template URL.
pub open spec fn asks_for_stream(step: Step, template: Seq<char>) -> bool {
    step matches Step::ReadConfig { key, then } && key@ == "client_id"@ && (then.want matches
        Want::Stream { template: t } && t@ == template)
}

/// How `extract_links` begins.
pub open spec fn begins_links(step: Step, url: Seq<char>) -> bool {
    match kind_of(url) {
        UrlKind::Unknown => refuses(step, url),
        _ => asks_to_resolve(step, Goal::Links, url),
    }
}

/// How `extract_playlist` begins.
pub open spec fn begins_playlist(step: Step, url: Seq<char>) -> bool {
    match kind_of(url) {
        UrlKind::Playlist | UrlKind::Artist => asks_to_resolve(step, Goal::Playlist, url),
        UrlKind::Unknown => refuses(step, url),
        UrlKind::Track => refuses_kind(step, UrlKind::Track, url),
    }
}

/// How `extract_track` and `resolve_stream_url` begin.
pub open spec fn begins_track(step: Step, goal: Goal, url: Seq<char>) -> bool {
    match kind_of(url) {
        UrlKind::Track => asks_to_resolve(step, goal, url),
        UrlKind::Unknown => refuses(step, url),
        kind => refuses_kind(step, kind, url),
    }
}

/// How `download_to_file` begins.
pub open spec fn begins_download(
    step: Step,
    url: Seq<char>,
    format: Seq<char>,
    output_dir: Seq<char>,
) -> bool {
    match kind_of(url) {
        UrlKind::Track => step matches Step::RunYtDlp { request, .. } && request@ == download_text(
            url,
            format,
            output_dir,
        ),
        UrlKind::Unknown => refuses(step, url),
        kind => refuses_kind(step, kind, url),
    }
}

/// The step for what the client id was wanted for, with the client id.
pub open spec fn goes_on(step: Step, want: Want, client_id: Seq<char>) -> bool {
    match want {
        Want::Resolve { goal, url } => step matches Step::SendHttp {
            request,
            then: AfterHttp::Resolve { goal: g },
        } && request@ == get_text(resolve_url(url@, client_id)) && g == goal,
        Want::Tracks { user } => match resource_id(user.urn, user.id) {
            Some(id) => step matches Step::SendHttp { request, then: AfterHttp::Page { pager } }
                && request@ == get_text(user_tracks_url(id, client_id, None)) && pager.user()
                == user && pager.user_id() == id && pager.client_id() == client_id
                && pager.pages() == 0 && pager.received() == Seq::<Track>::empty(),
            None => refuses(
                step,
                "artist profile '"@ + user.username@
                    + "' has no stable id or urn in the resolve response"@,
            ),
        },
        Want::Stream { template } => step matches Step::SendHttp {
            request,
            then: AfterHttp::Stream,
        } && request@ == get_text(with_client_id(template@, client_id)),
    }
}

/// The next bundle is asked for, or the search is over without success, with
/// the latest error where there was one.
pub open spec fn tries_on(
    step: Step,
    want: Want,
    urls: Seq<String>,
    tried: int,
    last_error: Option<PluginError>,
) -> bool {
    if tried < urls.len() {
        step matches Step::SendHttp {
            request,
            then: AfterHttp::Bundle { want: w, urls: u, tried: t, last_error: e },
        } && request@ == get_text(urls[tried]@) && w == want && u@ == urls && t == tried + 1 && e
            == last_error
    } else {
        step matches Step::Done(Outcome::Failed(error)) && match last_error {
            Some(e) => error == e,
            None => error matches PluginError::HostResponse(m) && m@
                == "no client_id marker in any SoundCloud bundle"@,
        }
    }
}

/// The body of a reply that succeeded.
pub open spec fn reply_body(reply: HttpReply) -> Option<Seq<char>> {
    match reply {
        HttpReply::Response(response) => if status_ok(response.status) {
            Some(response.body@)
        } else {
            None
        },
        _ => None,
    }
}

/// `error` is what a page of the web app could not be had for.
pub open spec fn page_error(reply: HttpReply, error: PluginError) -> bool {
    match reply {
        HttpReply::HostError(m) => error == PluginError::HostResponse(m),
        HttpReply::BadEnvelope(m) => error == PluginError::HostResponse(m),
        HttpReply::Response(response) => status_error(response, error),
    }
}

/// The operation is over, because the SoundCloud API could not be asked. A
/// failure of the host function is passed on as it is.
pub open spec fn api_failure(step: Step, reply: HttpReply) -> bool {
    match reply {
        HttpReply::HostError(m) => step == Step::Done(Outcome::HostFailed(m)),
        HttpReply::BadEnvelope(m) => step == Step::Done(
            Outcome::Failed(PluginError::HostResponse(m)),
        ),
        HttpReply::Response(response) => step matches Step::Done(Outcome::Failed(e))
            && status_error(response, e),
    }
}

/// The configuration entry that stores a client id.
pub open spec fn config_entry(client_id: Seq<char>) -> Seq<char> {
    "{\"key\":\"client_id\",\"value\":"@ + json_text(client_id) + "}"@
}

/// What follows the homepage: its bundles are tried in order.
pub open spec fn after_home(step: Step, want: Want, reply: HttpReply) -> bool {
    match reply_body(reply) {
        Some(html) => exists|urls: Seq<String>|
            string_texts(urls) == distinct(asset_urls(html, 0)) && #[trigger] tries_on(
                step,
                want,
                urls,
                0,
                None,
            ),
        None => step matches Step::Done(Outcome::Failed(e)) && page_error(reply, e),
    }
}

/// What follows a bundle: a client id in it is stored, and one without is
/// passed over.
pub open spec fn after_bundle(
    step: Step,
    want: Want,
    urls: Seq<String>,
    tried: int,
    last_error: Option<PluginError>,
    reply: HttpReply,
) -> bool {
    match reply_body(reply) {
        Some(js) => match client_id_in(js) {
            Some(id) => stores(step, want, id),
            None => tries_on(step, want, urls, tried, last_error),
        },
        None => exists|e: PluginError|
            page_error(reply, e) && #[trigger] tries_on(step, want, urls, tried, Some(e)),
    }
}

/// A client id that was found is stored, before it is used.
pub open spec fn stores(step: Step, want: Want, client_id: Seq<char>) -> bool {
    step matches Step::WriteConfig { entry, then } && entry@ == config_entry(client_id)
        && then.want == want && then.client_id@ == client_id
}

/// What follows a page of an artist's tracks: the next page, where the page
/// names one and the limit is not reached, or else the end.
pub open spec fn after_page(
    step: Step,
    pager: TrackPager,
    page: TrackCollectionResponse,
) -> bool {
    let received = pager.received() + page.collection@;
    if next_page(page) is Some && pager.pages() + 1 < MAX_ARTIST_TRACK_PAGES {
        step matches Step::SendHttp { request, then: AfterHttp::Page { pager: next } } && request@
            == get_text(user_tracks_url(pager.user_id(), pager.client_id(), next_page(page)))
            && next.user() == pager.user() && next.user_id() == pager.user_id()
            && next.client_id() == pager.client_id() && next.pages() == pager.pages() + 1
            && next.received() == received
    } else {
        ends_pages(step, pager.user(), kept(received))
    }
}

/// What follows the stored client id: it is used, or looked for where there is
/// none.
pub open spec fn after_config(step: Step, want: Want, reply: Result<String, String>) -> bool {
    match reply {
        Ok(stored) => if stored@.len() > 0 {
            goes_on(step, want, stored@)
        } else {
            step matches Step::SendHttp { request, then: AfterHttp::Home { want: w } } && request@
                == get_text(homepage()) && w == want
        },
        Err(m) => step == Step::Done(Outcome::Failed(PluginError::HostResponse(m))),
    }
}

/// What follows the storing of a client id: it is used.
pub open spec fn after_write(step: Step, want: Want, client_id: Seq<char>) -> bool {
    goes_on(step, want, client_id)
}

/// What follows an answer of the API: its body is decoded.
pub open spec fn after_api(step: Step, asked: AfterHttp, reply: HttpReply) -> bool {
    match (reply_body(reply), asked) {
        (Some(text), AfterHttp::Resolve { goal }) => step matches Step::DecodeResolve { body, then }
            && body@ == text && then.goal == goal,
        (Some(text), AfterHttp::Page { pager }) => step matches Step::DecodeTracks { body, then }
            && body@ == text && then.pager == pager,
        (Some(text), AfterHttp::Stream) => step matches Step::DecodeStreamUrl { body, .. } && body@
            == text,
        (None, AfterHttp::Resolve { .. }) => api_failure(step, reply),
        (None, AfterHttp::Page { .. }) => api_failure(step, reply),
        (None, AfterHttp::Stream) => api_failure(step, reply),
        _ => true,
    }
}

/// What follows a decoded answer of `/resolve`.
pub open spec fn after_resolve(
    step: Step,
    goal: Goal,
    reply: Result<ResolveResponse, String>,
) -> bool {
    match reply {
        Ok(resolved) => makes_of(step, goal, resolved),
        Err(m) => step == Step::Done(Outcome::Failed(PluginError::ParseJson(m))),
    }
}

/// What follows a decoded page.
pub open spec fn after_tracks(
    step: Step,
    pager: TrackPager,
    reply: Result<TrackCollectionResponse, String>,
) -> bool {
    match reply {
        Ok(page) => after_page(step, pager, page),
        Err(m) => step == Step::Done(Outcome::Failed(PluginError::ParseJson(m))),
    }
}

/// What follows a decoded stream URL.
pub open spec fn after_stream_url(step: Step, reply: Result<String, String>) -> bool {
    match reply {
        Ok(url) => step == Step::Done(Outcome::Text(url)),
        Err(m) => step == Step::Done(Outcome::Failed(PluginError::ParseJson(m))),
    }
}

/// What follows a run of yt-dlp.
pub open spec fn after_ytdlp(step: Step, reply: YtDlpReply) -> bool {
    match reply {
        YtDlpReply::HostError(m) => step == Step::Done(Outcome::HostFailed(m)),
        YtDlpReply::BadEnvelope(e) => step == Step::Done(
            Outcome::Failed(PluginError::SerdeJson(e)),
        ),
        YtDlpReply::Response(response) => if response.exit_code != 0 {
            step matches Step::Done(Outcome::Failed(PluginError::Subprocess { exit_code, stderr }))
                && exit_code == response.exit_code && stderr@ == shortened_stderr(response.stderr@)
        } else {
            match last_line(split(response.stdout@, '\n')) {
                Some(path) => step matches Step::Done(Outcome::Text(p)) && p@ == path,
                None => step == Step::Done(Outcome::Failed(PluginError::NoStreamAvailable)),
            }
        },
    }
}

/// The transcodings of a track.
pub open spec fn transcodings_of(track: Track) -> Seq<Transcoding> {
    match track.media {
        Some(media) => media.transcodings@,
        None => Seq::empty(),
    }
}

/// The step for the stream URL of a track: a progressive transcoding is
/// resolved, one of HLS is refused, and so is a track that has neither.
pub open spec fn streams(step: Step, track: Track) -> bool {
    let ts = transcodings_of(track);
    match best_transcoding(ts) {
        Some(i) => if has_protocol(ts[i], "hls"@) {
            step == Step::Done(Outcome::Failed(PluginError::AdaptiveStreamOnly))
        } else {
            asks_for_stream(step, ts[i].url@)
        },
        None => step == Step::Done(Outcome::Failed(PluginError::NoStreamAvailable)),
    }
}

/// What becomes of a resolved resource.
pub open spec fn makes_of(step: Step, goal: Goal, resolved: ResolveResponse) -> bool {
    match (goal, resolved) {
        (Goal::Links, ResolveResponse::Track(track)) => answers(
            step,
            single_track_response(track),
        ),
        (Goal::Links, ResolveResponse::Playlist(playlist)) => answers(
            step,
            playlist_response(playlist),
        ),
        (Goal::Links, ResolveResponse::User(user)) => asks_for_tracks(step, user),
        (Goal::Links, ResolveResponse::Unknown) => refuses(
            step,
            "unknown SoundCloud resource kind"@,
        ),
        (Goal::Playlist, ResolveResponse::Playlist(playlist)) => answers(
            step,
            playlist_response(playlist),
        ),
        (Goal::Playlist, ResolveResponse::User(user)) => asks_for_tracks(step, user),
        (Goal::Playlist, ResolveResponse::Track(_)) => refuses(
            step,
            "single track cannot be extracted as playlist"@,
        ),
        (Goal::Playlist, ResolveResponse::Unknown) => refuses(step, "unknown resource kind"@),
        (Goal::Track, ResolveResponse::Track(track)) => answers(
            step,
            single_track_response(track),
        ),
        (Goal::StreamUrl, ResolveResponse::Track(track)) => streams(step, track),
        (Goal::Track, _) => refuses(step, "resolved resource is not a track"@),
        (Goal::StreamUrl, _) => refuses(step, "resolved resource is not a track"@),
    }
}

/// The end of an artist's pages: the artist with the tracks gathered, or a
/// refusal where there are none.
pub open spec fn ends_pages(step: Step, user: User, tracks: Seq<Track>) -> bool {
    if tracks.len() == 0 {
        refuses(
            step,
            "artist profile '"@ + user.username@ + "' has no downloadable public tracks"@,
        )
    } else {
        answers(step, artist_response(user, tracks))
    }
}

// ── Every operation ends ──────────────────────────────────────────────────────

/// The rank of what is left to do: the stage, and the number of rounds left
/// in it. Each reply takes an operation to a lower rank.
pub type Rank = (nat, nat);

/// A lower stage, or fewer rounds in the same stage.
pub open spec fn lower(a: Rank, b: Rank) -> bool {
    a.0 < b.0 || (a.0 == b.0 && a.1 < b.1)
}

/// The stage of getting the client id: before resolving, or after it.
pub open spec fn want_stage(want: Want) -> nat {
    match want {
        Want::Resolve { .. } => 20,
        _ => 10,
    }
}

/// The number of pages of an artist's tracks that may still be taken in.
pub open spec fn pages_left(pager: TrackPager) -> nat {
    if pager.pages() < MAX_ARTIST_TRACK_PAGES {
        (MAX_ARTIST_TRACK_PAGES - pager.pages()) as nat
    } else {
        0
    }
}

/// The number of bundles that have not been tried yet.
pub open spec fn bundles_left(urls: Seq<String>, tried: int) -> nat {
    if tried < urls.len() {
        (urls.len() - tried) as nat
    } else {
        0
    }
}

impl AfterConfig {
    pub open spec fn rank(self) -> Rank {
        (want_stage(self.want) + 4, 0)
    }
}

impl AfterWrite {
    pub open spec fn rank(self) -> Rank {
        (want_stage(self.want) + 1, 0)
    }
}

impl AfterHttp {
    pub open spec fn rank(self) -> Rank {
        match self {
            AfterHttp::Home { want } => (want_stage(want) + 3, 0),
            AfterHttp::Bundle { want, urls, tried, .. } => (
                want_stage(want) + 2,
                bundles_left(urls@, tried as int),
            ),
            AfterHttp::Resolve { .. } => (17, 0),
            AfterHttp::Page { pager } => (5, 2 * pages_left(pager) + 1),
            AfterHttp::Stream => (5, 0),
        }
    }
}

impl AfterResolve {
    pub open spec fn rank(self) -> Rank {
        (16, 0)
    }
}

impl AfterTracks {
    pub open spec fn rank(self) -> Rank {
        (5, 2 * pages_left(self.pager))
    }
}

impl AfterStreamUrl {
    pub open spec fn rank(self) -> Rank {
        (4, 0)
    }
}

impl AfterYtDlp {
    pub open spec fn rank(self) -> Rank {
        (1, 0)
    }
}

impl Step {
    pub open spec fn rank(self) -> Rank {
        match self {
            Step::ReadConfig { then, .. } => then.rank(),
            Step::WriteConfig { then, .. } => then.rank(),
            Step::SendHttp { then, .. } => then.rank(),
            Step::DecodeResolve { then, .. } => then.rank(),
            Step::DecodeTracks { then, .. } => then.rank(),
            Step::DecodeStreamUrl { then, .. } => then.rank(),
            Step::RunYtDlp { then, .. } => then.rank(),
            Step::Done(_) => (0, 0),
        }
    }
}

// ── Laws ──────────────────────────────────────────────────────────────────────

/// The routing answers agree with the operations: a URL can be handled
/// exactly where `extract_links` takes it, and supports playlists exactly
/// where `extract_playlist` takes it.
pub proof fn law_routing_agrees_with_operations(url: Seq<char>, links: Step, playlist: Step)
    requires
        begins_links(links, url),
        begins_playlist(playlist, url),
    ensures
        flag_text(kind_of(url) != UrlKind::Unknown) == "true"@ <==> links is ReadConfig,
        flag_text(kind_of(url) == UrlKind::Playlist || kind_of(url) == UrlKind::Artist) == "true"@
            <==> playlist is ReadConfig,
{
    reveal_strlit("true");
    reveal_strlit("false");
    assert("true"@.len() != "false"@.len());
}

/// The stream that is resolved is a progressive one. A track that has only
/// HLS is answered with the error that says so, and one that has neither
/// with the error that there is no stream.
pub proof fn law_only_progressive_streams(step: Step, track: Track)
    requires
        streams(step, track),
    ensures
        ({
            let ts = transcodings_of(track);
            let progressive = exists|i: int|
                0 <= i < ts.len() && has_protocol(#[trigger] ts[i], "progressive"@);
            let hls = exists|i: int| 0 <= i < ts.len() && has_protocol(#[trigger] ts[i], "hls"@);
            if progressive {
                exists|i: int|
                    {
                        &&& 0 <= i < ts.len()
                        &&& has_protocol(#[trigger] ts[i], "progressive"@)
                        &&& asks_for_stream(step, ts[i].url@)
                    }
            } else if hls {
                step == Step::Done(Outcome::Failed(PluginError::AdaptiveStreamOnly))
            } else {
                step == Step::Done(Outcome::Failed(PluginError::NoStreamAvailable))
            }
        }),
{
    let ts = transcodings_of(track);
    law_progressive_is_preferred(ts);
    reveal_strlit("progressive");
    reveal_strlit("hls");
    assert("progressive"@.len() != "hls"@.len());
    match best_transcoding(ts) {
        Some(i) => {
            assert(has_protocol(ts[i], "progressive"@) || has_protocol(ts[i], "hls"@));
        },
        None => {},
    }
}

/// Every operation ends: steps that go on to ever lower ranks, as each reply
/// takes them, do not go on for ever.
pub proof fn law_every_operation_ends(run: spec_fn(nat) -> Step)
    ensures
        exists|n: nat| !(#[trigger] goes_lower(run, n)),
{
    lemma_ends(run, 0);
}

/// The step behind the one at `n` has a lower rank.
pub open spec fn goes_lower(run: spec_fn(nat) -> Step, n: nat) -> bool {
    lower(run(n + 1).rank(), run(n).rank())
}

/// From any step on, ranks do not fall for ever.
proof fn lemma_ends(run: spec_fn(nat) -> Step, from: nat)
    ensures
        exists|n: nat| !(#[trigger] goes_lower(run, n)),
    decreases run(from).rank().0, run(from).rank().1,
{
    if goes_lower(run, from) {
        lemma_ends(run, from + 1);
    }
}

/// The client id in the answer to a bundle, where there is one.
pub open spec fn bundle_id(reply: HttpReply) -> Option<Seq<char>> {
    match reply_body(reply) {
        Some(js) => client_id_in(js),
        None => None,
    }
}

/// `next` follows `step`, which asked for a bundle, on the given reply.
pub open spec fn bundle_answered(step: Step, reply: HttpReply, next: Step) -> bool {
    step matches Step::SendHttp {
        then: AfterHttp::Bundle { want, urls, tried, last_error },
        ..
    } && after_bundle(next, want, urls@, tried as int, last_error, reply)
}

/// A search through the bundles at `urls`: `steps` starts with the first
/// attempt, and each further step follows the one before it on the next of
/// `replies`.
pub open spec fn search_run(
    want: Want,
    urls: Seq<String>,
    replies: Seq<HttpReply>,
    steps: Seq<Step>,
) -> bool {
    &&& steps.len() == replies.len() + 1
    &&& tries_on(steps[0], want, urls, 0, None)
    &&& forall|i: int|
        0 <= i < replies.len() ==> bundle_answered(
            steps[i],
            #[trigger] replies[i],
            steps[i + 1],
        )
}

/// `error` is that of the latest of `replies` that was one.
pub open spec fn latest_error(replies: Seq<HttpReply>, error: Option<PluginError>) -> bool
    decreases replies.len(),
{
    if replies.len() == 0 {
        error is None
    } else if reply_body(replies.last()) is None {
        error matches Some(e) && page_error(replies.last(), e)
    } else {
        latest_error(replies.drop_last(), error)
    }
}

/// The bundles are tried one after the other, as long as none of them held a
/// client id. The first that does, ends the search: that client id is stored
/// and used.
pub proof fn law_first_client_id_is_taken(
    want: Want,
    urls: Seq<String>,
    replies: Seq<HttpReply>,
    steps: Seq<Step>,
    k: int,
)
    requires
        search_run(want, urls, replies, steps),
        0 <= k < replies.len(),
        forall|i: int| 0 <= i < k ==> bundle_id(#[trigger] replies[i]) is None,
    ensures
        k < urls.len(),
        steps[k] matches Step::SendHttp { request, .. } && request@ == get_text(urls[k]@),
        bundle_id(replies[k]) matches Some(id) ==> stores(steps[k + 1], want, id),
        replies[k] matches HttpReply::Response(response) ==> (200 <= response.status <= 299 ==> (
        client_id_in(response.body@) matches Some(id) ==> (steps[k + 1] matches Step::WriteConfig {
            entry,
            then,
        } && entry@ == config_entry(id) && then.want == want && then.client_id@ == id))),
{
    let last_error = lemma_search(want, urls, replies, steps, k);
    assert(bundle_answered(steps[k], replies[k], steps[k + 1]));
}

/// Where no bundle holds a client id, the search ends with the latest error
/// that a bundle was answered with, or else with an error that says that
/// there is none to be found.
pub proof fn law_search_ends_with_latest_error(
    want: Want,
    urls: Seq<String>,
    replies: Seq<HttpReply>,
    steps: Seq<Step>,
)
    requires
        search_run(want, urls, replies, steps),
        replies.len() == urls.len(),
        forall|i: int| 0 <= i < replies.len() ==> bundle_id(#[trigger] replies[i]) is None,
    ensures
        steps.last() matches Step::Done(Outcome::Failed(error)) && (latest_error(
            replies,
            Some(error),
        ) || (latest_error(replies, None) && (error matches PluginError::HostResponse(m) && m@
            == "no client_id marker in any SoundCloud bundle"@))),
{
    let last_error = lemma_search(want, urls, replies, steps, replies.len() as int);
    assert(replies.take(replies.len() as int) =~= replies);
}

/// The state of a search after `k` bundles without a client id.
proof fn lemma_search(
    want: Want,
    urls: Seq<String>,
    replies: Seq<HttpReply>,
    steps: Seq<Step>,
    k: int,
) -> (last_error: Option<PluginError>)
    requires
        search_run(want, urls, replies, steps),
        0 <= k <= replies.len(),
        forall|i: int| 0 <= i < k ==> bundle_id(#[trigger] replies[i]) is None,
    ensures
        tries_on(steps[k], want, urls, k, last_error),
        latest_error(replies.take(k), last_error),
        k < replies.len() ==> k < urls.len(),
    decreases k,
{
    if k < replies.len() {
        assert(bundle_answered(steps[k], replies[k], steps[k + 1]));
    }
    if k == 0 {
        None
    } else {
        let before = lemma_search(want, urls, replies, steps, k - 1);
        let reply = replies[k - 1];
        assert(bundle_answered(steps[k - 1], reply, steps[k]));
        assert(bundle_id(reply) is None);
        assert(replies.take(k).drop_last() =~= replies.take(k - 1));
        assert(replies.take(k).last() == reply);
        if reply_body(reply) is None {
            let e = choose|e: PluginError|
                page_error(reply, e) && #[trigger] tries_on(steps[k], want, urls, k, Some(e));
            Some(e)
        } else {
            before
        }
    }
}

/// The tracks on pages, in order.
pub open spec fn collected(pages: Seq<TrackCollectionResponse>) -> Seq<Track>
    decreases pages.len(),
{
    if pages.len() == 0 {
        Seq::empty()
    } else {
        collected(pages.drop_last()) + pages.last().collection@
    }
}

/// The step at `i` follows the page at `i`, which is the first, or the one
/// that the step before asked for.
pub open spec fn page_answered(
    start: TrackPager,
    pages: Seq<TrackCollectionResponse>,
    steps: Seq<Step>,
    i: int,
) -> bool {
    if i == 0 {
        after_page(steps[0], start, pages[0])
    } else {
        steps[i - 1] matches Step::SendHttp { then: AfterHttp::Page { pager }, .. } && after_page(
            steps[i],
            pager,
            pages[i],
        )
    }
}

/// The pages of an artist's tracks, each with the step that follows it.
pub open spec fn pages_run(
    start: TrackPager,
    pages: Seq<TrackCollectionResponse>,
    steps: Seq<Step>,
) -> bool {
    &&& start.pages() == 0
    &&& start.received() == Seq::<Track>::empty()
    &&& pages.len() == steps.len()
    &&& forall|i: int| 0 <= i < pages.len() ==> #[trigger] page_answered(start, pages, steps, i)
}

/// An artist's pages add up: after the last page, or after the twentieth,
/// the answer holds what is kept of the tracks on all pages; and while the
/// pages go on, the one that the latest page names is asked for next.
pub proof fn law_artist_pages_add_up(
    start: TrackPager,
    pages: Seq<TrackCollectionResponse>,
    steps: Seq<Step>,
)
    requires
        pages_run(start, pages, steps),
        pages.len() > 0,
    ensures
        pages.len() <= MAX_ARTIST_TRACK_PAGES,
        if next_page(pages.last()) is Some && pages.len() < MAX_ARTIST_TRACK_PAGES {
            steps.last() matches Step::SendHttp { request, .. } && request@ == get_text(
                user_tracks_url(start.user_id(), start.client_id(), next_page(pages.last())),
            )
        } else {
            ends_pages(steps.last(), start.user(), kept(collected(pages)))
        },
    decreases pages.len(),
{
    let n = pages.len() as int;
    let before = pages.drop_last();
    assert(page_answered(start, pages, steps, n - 1));
    if n == 1 {
        assert(collected(before) =~= Seq::<Track>::empty());
        assert(collected(pages) =~= pages[0].collection@);
        assert(start.received() + pages[0].collection@ =~= collected(pages));
    } else {
        lemma_pages(start, pages, steps, n - 2);
        assert(pages.take(n - 1) =~= before);
    }
}

/// The pager that has taken in the pages up to `i`, where another follows.
proof fn lemma_pages(
    start: TrackPager,
    pages: Seq<TrackCollectionResponse>,
    steps: Seq<Step>,
    i: int,
)
    requires
        pages_run(start, pages, steps),
        0 <= i < pages.len() - 1,
    ensures
        i + 1 < MAX_ARTIST_TRACK_PAGES,
        steps[i] matches Step::SendHttp { then: AfterHttp::Page { pager }, .. } && pager.user()
            == start.user() && pager.user_id() == start.user_id() && pager.client_id()
            == start.client_id() && pager.pages() == i + 1 && pager.received() == collected(
            pages.take(i + 1),
        ),
    decreases i,
{
    assert(page_answered(start, pages, steps, i));
    assert(page_answered(start, pages, steps, i + 1));
    assert(pages.take(i + 1).drop_last() =~= pages.take(i));
    assert(pages.take(i + 1).last() == pages[i]);
    if i == 0 {
        assert(collected(pages.take(0)) =~= Seq::<Track>::empty());
        assert(start.received() + pages[0].collection@ =~= collected(pages.take(1)));
    } else {
        lemma_pages(start, pages, steps, i - 1);
    }
}

// ── Operations ────────────────────────────────────────────────────────────────

/// Resolve a SoundCloud URL to the media behind it. A URL of another kind is
/// refused, and the host is not asked for anything.
pub fn extract_links(url: &str) -> (r: Step)
    ensures
        begins_links(r, url@),
{
    match ensure_soundcloud_url(url) {
        Ok(_) => resolve(Goal::Links, url),
        Err(e) => Step::Done(Outcome::Failed(e)),
    }
}

/// Resolve a collection URL to its entries. Any other URL is refused, and the
/// host is not asked for anything.
pub fn extract_playlist(url: &str) -> (r: Step)
    ensures
        begins_playlist(r, url@),
{
    match ensure_playlist(url) {
        Ok(_) => resolve(Goal::Playlist, url),
        Err(e) => Step::Done(Outcome::Failed(e)),
    }
}

/// Resolve a track URL. Any other URL is refused, and the host is not asked
/// for anything.
pub fn extract_track(url: &str) -> (r: Step)
    ensures
        begins_track(r, Goal::Track, url@),
{
    match ensure_track(url) {
        Ok(_) => resolve(Goal::Track, url),
        Err(e) => Step::Done(Outcome::Failed(e)),
    }
}

/// Resolve a track URL to the URL of its CDN stream. Any other URL is
/// refused, and the host is not asked for anything.
///
/// This takes two requests: one to `/resolve`, for the transcodings of the
/// track, and one to the template URL of the chosen transcoding.
pub fn resolve_stream_url(url: &str) -> (r: Step)
    ensures
        begins_track(r, Goal::StreamUrl, url@),
{
    match ensure_track(url) {
        Ok(_) => resolve(Goal::StreamUrl, url),
        Err(e) => Step::Done(Outcome::Failed(e)),
    }
}

/// Download a track with yt-dlp. Any other URL is refused, and yt-dlp is not
/// run.
pub fn download_to_file(url: &str, format: &str, output_dir: &str) -> (r: Step)
    ensures
        begins_download(r, url@, format@, output_dir@),
{
    match ensure_track(url) {
        Ok(_) => match build_ytdlp_download_request(url, format, output_dir).to_json() {
            Ok(request) => Step::RunYtDlp { request, then: AfterYtDlp {  } },
            Err(e) => Step::Done(Outcome::Failed(e)),
        },
        Err(e) => Step::Done(Outcome::Failed(e)),
    }
}

/// Ask `/resolve` for what a URL stands for, once there is a client id.
fn resolve(goal: Goal, url: &str) -> (r: Step)
    ensures
        asks_to_resolve(r, goal, url@),
{
    read_client_id(Want::Resolve { goal, url: url.to_owned() })
}

/// Get the client id: the stored one, if any.
fn read_client_id(want: Want) -> (r: Step)
    ensures
        r matches Step::ReadConfig { key, then } && key@ == "client_id"@ && then.want == want,
{
    Step::ReadConfig { key: "client_id".to_owned(), then: AfterConfig { want } }
}

/// Do what the client id was wanted for.
fn use_client_id(want: Want, client_id: String) -> (r: Step)
    ensures
        goes_on(r, want, client_id@),
        lower(r.rank(), (want_stage(want) + 1, 0)),
{
    match want {
        Want::Resolve { goal, url } => match build_resolve_request(
            url.as_str(),
            client_id.as_str(),
        ) {
            Ok(request) => Step::SendHttp { request, then: AfterHttp::Resolve { goal } },
            Err(e) => Step::Done(Outcome::Failed(e)),
        },
        Want::Tracks { user } => match user_resource_id(&user) {
            Some(user_id) => {
                let pager = TrackPager::start(user, user_id, client_id);
                match pager.request(None) {
                    Ok(request) => Step::SendHttp { request, then: AfterHttp::Page { pager } },
                    Err(e) => Step::Done(Outcome::Failed(e)),
                }
            },
            None => refuse(
                "artist profile '".to_owned().concat(user.username.as_str()).concat(
                    "' has no stable id or urn in the resolve response",
                ),
            ),
        },
        Want::Stream { template } => match build_stream_request(
            template.as_str(),
            client_id.as_str(),
        ) {
            Ok(request) => Step::SendHttp { request, then: AfterHttp::Stream },
            Err(e) => Step::Done(Outcome::Failed(e)),
        },
    }
}

/// Refuse a resource.
fn refuse(reason: String) -> (r: Step)
    ensures
        refuses(r, reason@),
        r is Done,
{
    Step::Done(Outcome::Failed(PluginError::UnsupportedUrl(reason)))
}

/// Fetch a page of the web app: no client id, no headers.
fn fetch_page(url: String, then: AfterHttp) -> (r: Step)
    ensures
        r matches Step::SendHttp { request, then: t } && request@ == get_text(url@) && t == then,
{
    match HttpRequest::get(url).to_json() {
        Ok(request) => Step::SendHttp { request, then },
        Err(e) => Step::Done(Outcome::Failed(e)),
    }
}

/// Ask for the next bundle, or give up where there is none left.
fn try_next_bundle(
    want: Want,
    urls: Vec<String>,
    tried: usize,
    last_error: Option<PluginError>,
) -> (r: Step)
    ensures
        tries_on(r, want, urls@, tried as int, last_error),
        lower(r.rank(), (want_stage(want) + 2, bundles_left(urls@, tried as int))),
{
    if tried < urls.len() {
        let url = urls[tried].clone();
        fetch_page(url, AfterHttp::Bundle { want, urls, tried: tried + 1, last_error })
    } else {
        Step::Done(
            Outcome::Failed(
                match last_error {
                    Some(e) => e,
                    None => PluginError::HostResponse(
                        "no client_id marker in any SoundCloud bundle".to_owned(),
                    ),
                },
            ),
        )
    }
}

impl AfterConfig {
    /// Take the stored client id. Where none is stored, look for one, starting
    /// at the homepage. A failure to read is an error: without a client id
    /// the API would answer as if the resource were private.
    pub fn resume(self, reply: Result<String, String>) -> (r: Step)
        ensures
            match reply {
                Ok(stored) => if stored@.len() > 0 {
                    goes_on(r, self.want, stored@)
                } else {
                    r matches Step::SendHttp { request, then: AfterHttp::Home { want } }
                        && request@ == get_text(homepage()) && want == self.want
                },
                Err(m) => r == Step::Done(Outcome::Failed(PluginError::HostResponse(m))),
            },
            after_config(r, self.want, reply),
            lower(r.rank(), self.rank()),
    {
        match reply {
            Ok(stored) => if !stored.as_str().is_empty() {
                use_client_id(self.want, stored)
            } else {
                fetch_page("https://soundcloud.com/".to_owned(), AfterHttp::Home { want: self.want })
            },
            Err(m) => Step::Done(Outcome::Failed(PluginError::HostResponse(m))),
        }
    }
}

impl AfterWrite {
    /// Do what the client id was wanted for.
    pub fn resume(self) -> (r: Step)
        ensures
            goes_on(r, self.want, self.client_id@),
            after_write(r, self.want, self.client_id@),
            lower(r.rank(), self.rank()),
    {
        use_client_id(self.want, self.client_id)
    }
}

impl HttpReply {
    /// The body of a page of the web app.
    fn into_page(self) -> (r: Result<String, PluginError>)
        ensures
            match reply_body(self) {
                Some(body) => r matches Ok(b) && b@ == body,
                None => r matches Err(e) && page_error(self, e),
            },
    {
        match self {
            HttpReply::HostError(m) => Err(PluginError::HostResponse(m)),
            HttpReply::BadEnvelope(m) => Err(PluginError::HostResponse(m)),
            HttpReply::Response(response) => response.into_success_body(),
        }
    }

    /// The body of an answer of the SoundCloud API.
    fn into_api_body(self) -> (r: Result<String, Outcome>)
        ensures
            match reply_body(self) {
                Some(body) => r matches Ok(b) && b@ == body,
                None => r matches Err(outcome) && api_failure(Step::Done(outcome), self),
            },
    {
        match self {
            HttpReply::HostError(m) => Err(Outcome::HostFailed(m)),
            HttpReply::BadEnvelope(m) => Err(Outcome::Failed(PluginError::HostResponse(m))),
            HttpReply::Response(response) => match response.into_success_body() {
                Ok(body) => Ok(body),
                Err(e) => Err(Outcome::Failed(e)),
            },
        }
    }
}

impl AfterHttp {
    /// Take the answer.
    ///
    /// A homepage names bundles, which are tried in order until one holds a
    /// client id; that is stored before it is used. A bundle that cannot be
    /// had or holds none is passed over. An answer of the API is decoded.
    pub fn resume(self, reply: HttpReply) -> (r: Step)
        ensures
            match self {
                AfterHttp::Home { want } => after_home(r, want, reply),
                AfterHttp::Bundle { want, urls, tried, last_error } => after_bundle(
                    r,
                    want,
                    urls@,
                    tried as int,
                    last_error,
                    reply,
                ),
                AfterHttp::Resolve { goal } => match reply_body(reply) {
                    Some(text) => r matches Step::DecodeResolve { body, then } && body@ == text
                        && then.goal == goal,
                    None => api_failure(r, reply),
                },
                AfterHttp::Page { pager } => match reply_body(reply) {
                    Some(text) => r matches Step::DecodeTracks { body, then } && body@ == text
                        && then.pager == pager,
                    None => api_failure(r, reply),
                },
                AfterHttp::Stream => match reply_body(reply) {
                    Some(text) => r matches Step::DecodeStreamUrl { body, .. } && body@ == text,
                    None => api_failure(r, reply),
                },
            },
            after_api(r, self, reply),
            lower(r.rank(), self.rank()),
    {
        match self {
            AfterHttp::Home { want } => match reply.into_page() {
                Ok(html) => {
                    let urls = extract_js_urls(html.as_str());
                    try_next_bundle(want, urls, 0, None)
                },
                Err(e) => Step::Done(Outcome::Failed(e)),
            },
            AfterHttp::Bundle { want, urls, tried, last_error } => match reply.into_page() {
                Ok(js) => match extract_client_id(js.as_str()) {
                    Some(id) => store_client_id(want, id),
                    None => try_next_bundle(want, urls, tried, last_error),
                },
                Err(e) => try_next_bundle(want, urls, tried, Some(e)),
            },
            AfterHttp::Resolve { goal } => match reply.into_api_body() {
                Ok(body) => Step::DecodeResolve { body, then: AfterResolve { goal } },
                Err(outcome) => Step::Done(outcome),
            },
            AfterHttp::Page { pager } => match reply.into_api_body() {
                Ok(body) => Step::DecodeTracks { body, then: AfterTracks { pager } },
                Err(outcome) => Step::Done(outcome),
            },
            AfterHttp::Stream => match reply.into_api_body() {
                Ok(body) => Step::DecodeStreamUrl { body, then: AfterStreamUrl {  } },
                Err(outcome) => Step::Done(outcome),
            },
        }
    }
}

/// Store a client id that was found, so that the search is made only once.
fn store_client_id(want: Want, id: String) -> (r: Step)
    ensures
        stores(r, want, id@),
{
    match json_string(id.as_str()) {
        Ok(value) => {
            let entry = "{\"key\":\"client_id\",\"value\":".to_owned().concat(
                value.as_str(),
            ).concat("}");
            Step::WriteConfig { entry, then: AfterWrite { want, client_id: id } }
        },
        Err(e) => Step::Done(Outcome::Failed(PluginError::SerdeJson(e))),
    }
}

impl AfterResolve {
    /// Make of the resource what was wanted. `reply` is the decoded answer, or
    /// the reason why it could not be decoded.
    pub fn resume(self, reply: Result<ResolveResponse, String>) -> (r: Step)
        ensures
            match reply {
                Ok(resolved) => makes_of(r, self.goal, resolved),
                Err(m) => r == Step::Done(Outcome::Failed(PluginError::ParseJson(m))),
            },
            after_resolve(r, self.goal, reply),
            lower(r.rank(), self.rank()),
    {
        let resolved = match reply {
            Ok(resolved) => resolved,
            Err(m) => {
                return Step::Done(Outcome::Failed(PluginError::ParseJson(m)));
            },
        };
        match self.goal {
            Goal::Links => match resolved {
                ResolveResponse::User(user) => read_client_id(Want::Tracks { user }),
                other => match response_to_extract_links(other) {
                    Ok(links) => Step::Done(Outcome::Links(links)),
                    Err(e) => Step::Done(Outcome::Failed(e)),
                },
            },
            Goal::Playlist => match resolved {
                ResolveResponse::Playlist(playlist) => Step::Done(
                    Outcome::Links(build_playlist_response(playlist)),
                ),
                ResolveResponse::User(user) => read_client_id(Want::Tracks { user }),
                ResolveResponse::Track(_) => refuse(
                    "single track cannot be extracted as playlist".to_owned(),
                ),
                ResolveResponse::Unknown => refuse("unknown resource kind".to_owned()),
            },
            Goal::Track => match resolved {
                ResolveResponse::Track(track) => Step::Done(
                    Outcome::Links(build_single_track_response(track)),
                ),
                _ => refuse("resolved resource is not a track".to_owned()),
            },
            Goal::StreamUrl => match resolved {
                ResolveResponse::Track(track) => stream_step(&track),
                _ => refuse("resolved resource is not a track".to_owned()),
            },
        }
    }
}

/// Pick the transcoding of a track to stream, and go on to resolve it.
fn stream_step(track: &Track) -> (r: Step)
    ensures
        streams(r, *track),
        lower(r.rank(), (16, 0)),
{
    let empty: Vec<Transcoding> = Vec::new();
    let transcodings = match &track.media {
        Some(media) => media.transcodings.as_slice(),
        None => empty.as_slice(),
    };
    assert(transcodings@ =~= transcodings_of(*track));
    let best = match pick_best_transcoding(transcodings) {
        Some(best) => best,
        None => {
            return Step::Done(Outcome::Failed(PluginError::NoStreamAvailable));
        },
    };
    if let Some(format) = &best.format {
        if same_text(format.protocol.as_str(), "hls") {
            return Step::Done(Outcome::Failed(PluginError::AdaptiveStreamOnly));
        }
    }
    read_client_id(Want::Stream { template: best.url.clone() })
}

impl AfterTracks {
    /// Take in a page of an artist's tracks, and ask for the next one or end.
    /// `reply` is the decoded page, or the reason why it could not be decoded.
    pub fn resume(self, reply: Result<TrackCollectionResponse, String>) -> (r: Step)
        ensures
            match reply {
                Ok(page) => after_page(r, self.pager, page),
                Err(m) => r == Step::Done(Outcome::Failed(PluginError::ParseJson(m))),
            },
            after_tracks(r, self.pager, reply),
            lower(r.rank(), self.rank()),
    {
        match reply {
            Ok(page) => match self.pager.absorb(page) {
                PageStep::Next { href, pager } => match pager.request(Some(href.as_str())) {
                    Ok(request) => Step::SendHttp { request, then: AfterHttp::Page { pager } },
                    Err(e) => Step::Done(Outcome::Failed(e)),
                },
                PageStep::Ended { user, tracks } => if tracks.len() == 0 {
                    refuse(
                        "artist profile '".to_owned().concat(user.username.as_str()).concat(
                            "' has no downloadable public tracks",
                        ),
                    )
                } else {
                    Step::Done(Outcome::Links(build_artist_response(&user, tracks)))
                },
            },
            Err(m) => Step::Done(Outcome::Failed(PluginError::ParseJson(m))),
        }
    }
}

impl AfterStreamUrl {
    /// End with the stream URL. `reply` is the decoded URL, or the reason why
    /// it could not be decoded.
    pub fn resume(self, reply: Result<String, String>) -> (r: Step)
        ensures
            match reply {
                Ok(url) => r == Step::Done(Outcome::Text(url)),
                Err(m) => r == Step::Done(Outcome::Failed(PluginError::ParseJson(m))),
            },
            after_stream_url(r, reply),
            lower(r.rank(), self.rank()),
    {
        match reply {
            Ok(url) => Step::Done(Outcome::Text(url)),
            Err(m) => Step::Done(Outcome::Failed(PluginError::ParseJson(m))),
        }
    }
}

impl AfterYtDlp {
    /// End with the path of the file: the last line that yt-dlp printed.
    pub fn resume(self, reply: YtDlpReply) -> (r: Step)
        ensures
            match reply {
                YtDlpReply::HostError(m) => r == Step::Done(Outcome::HostFailed(m)),
                YtDlpReply::BadEnvelope(e) => r == Step::Done(
                    Outcome::Failed(PluginError::SerdeJson(e)),
                ),
                YtDlpReply::Response(response) => if response.exit_code != 0 {
                    r matches Step::Done(
                        Outcome::Failed(PluginError::Subprocess { exit_code, stderr }),
                    ) && exit_code == response.exit_code && stderr@ == shortened_stderr(
                        response.stderr@,
                    )
                } else {
                    match last_line(split(response.stdout@, '\n')) {
                        Some(path) => r matches Step::Done(Outcome::Text(p)) && p@ == path,
                        None => r == Step::Done(
                            Outcome::Failed(PluginError::NoStreamAvailable),
                        ),
                    }
                },
            },
            after_ytdlp(r, reply),
            lower(r.rank(), self.rank()),
    {
        match reply {
            YtDlpReply::HostError(m) => Step::Done(Outcome::HostFailed(m)),
            YtDlpReply::BadEnvelope(e) => Step::Done(Outcome::Failed(PluginError::SerdeJson(e))),
            YtDlpReply::Response(response) => match response.into_stdout() {
                Ok(stdout) => match parse_download_path_from_stdout(stdout.as_str()) {
                    Ok(path) => Step::Done(Outcome::Text(path)),
                    Err(e) => Step::Done(Outcome::Failed(e)),
                },
                Err(e) => Step::Done(Outcome::Failed(e)),
            },
        }
    }
}

} // verus!
