use std::collections::HashMap;

use serde_json::Value;

use vortex_mod_soundcloud::api::{
    ApiId, HttpResponse, Playlist, ResolveResponse, Track, TrackCollectionResponse, TrackMedia,
    TrackUser, Transcoding, TranscodingFormat, User,
};
use vortex_mod_soundcloud::error::PluginError;
use vortex_mod_soundcloud::extractor::YtDlpResponse;
use vortex_mod_soundcloud::plugin_api::{
    download_to_file, extract_links, extract_playlist, extract_track, resolve_stream_url,
    HttpReply, Outcome, Step, YtDlpReply,
};
use vortex_mod_soundcloud::{handle_can_handle, handle_supports_playlist};

const TRACK_URL: &str = "https://soundcloud.com/vortex/demo-track";
const PLAYLIST_URL: &str = "https://soundcloud.com/vortex/sets/demo-playlist";
const ARTIST_URL: &str = "https://soundcloud.com/forss";
const STREAM_API_URL: &str = "https://api-v2.soundcloud.com/media/demo/progressive";
const STREAM_CDN_URL: &str = "https://cdn.example.test/demo-track.mp3";
const DOWNLOAD_DIR: &str = "/tmp/vortex-downloads/job";
const DOWNLOAD_PATH: &str = "/tmp/vortex-downloads/job/demo-track.mp3";
const TRACK_BODY: &str = r#"{"kind":"track","id":42,"title":"Demo Track","duration":123000,"permalink_url":"https://soundcloud.com/vortex/demo-track","artwork_url":"https://i1.sndcdn.com/artworks-demo-large.jpg","user":{"username":"Vortex"},"media":{"transcodings":[{"url":"https://api-v2.soundcloud.com/media/demo/progressive","format":{"protocol":"progressive","mime_type":"audio/mpeg"},"quality":"sq"}]}}"#;
const PLAYLIST_BODY: &str = r#"{"kind":"playlist","id":7,"title":"Demo Playlist","permalink_url":"https://soundcloud.com/vortex/sets/demo-playlist","tracks":[{"id":42,"title":"Demo Track","duration":123000,"permalink_url":"https://soundcloud.com/vortex/demo-track","user":{"username":"Vortex"}}]}"#;

// ── Reading fixtures ──────────────────────────────────────────────────────────

fn text(value: &Value) -> Option<String> {
    value.as_str().map(|s| s.to_string())
}

fn list(value: &Value) -> Vec<Value> {
    value.as_array().cloned().unwrap_or_default()
}

fn api_id(value: &Value) -> Option<ApiId> {
    match value.as_u64() {
        Some(n) => Some(ApiId::Numeric(n)),
        None => text(value).map(ApiId::Text),
    }
}

fn track(value: &Value) -> Track {
    let media = &value["media"];
    Track {
        id: api_id(&value["id"]),
        urn: text(&value["urn"]),
        title: text(&value["title"]).unwrap(),
        duration: value["duration"].as_u64(),
        permalink_url: text(&value["permalink_url"]),
        artwork_url: text(&value["artwork_url"]),
        user: text(&value["user"]["username"]).map(|username| TrackUser { username }),
        metadata_artist: text(&value["metadata_artist"]),
        streamable: value["streamable"].as_bool(),
        media: media.as_object().map(|_| TrackMedia {
            transcodings: list(&media["transcodings"])
                .iter()
                .map(|t| Transcoding {
                    url: text(&t["url"]).unwrap(),
                    format: t["format"].as_object().map(|_| TranscodingFormat {
                        protocol: text(&t["format"]["protocol"]).unwrap_or_default(),
                        mime_type: text(&t["format"]["mime_type"]).unwrap_or_default(),
                    }),
                    quality: text(&t["quality"]),
                })
                .collect(),
        }),
    }
}

fn resolved(body: &str) -> Result<ResolveResponse, String> {
    let value: Value = serde_json::from_str(body).map_err(|e| e.to_string())?;
    Ok(match value["kind"].as_str() {
        Some("track") => ResolveResponse::Track(track(&value)),
        Some("playlist") => ResolveResponse::Playlist(Playlist {
            id: api_id(&value["id"]),
            urn: text(&value["urn"]),
            title: text(&value["title"]).unwrap(),
            permalink_url: text(&value["permalink_url"]),
            artwork_url: text(&value["artwork_url"]),
            tracks: list(&value["tracks"]).iter().map(track).collect(),
            track_count: value["track_count"].as_u64(),
        }),
        Some("user") => ResolveResponse::User(User {
            id: api_id(&value["id"]),
            urn: text(&value["urn"]),
            username: text(&value["username"]).unwrap(),
            permalink_url: text(&value["permalink_url"]),
            avatar_url: text(&value["avatar_url"]),
        }),
        _ => ResolveResponse::Unknown,
    })
}

fn page(body: &str) -> Result<TrackCollectionResponse, String> {
    let value: Value = serde_json::from_str(body).map_err(|e| e.to_string())?;
    Ok(TrackCollectionResponse {
        collection: list(&value["collection"]).iter().map(track).collect(),
        next_href: text(&value["next_href"]),
    })
}

// ── A host ────────────────────────────────────────────────────────────────────

/// Stands in for the host, and keeps a record of what it was asked.
struct Host {
    stored_id: Result<String, String>,
    answers: Vec<(String, HttpAnswer)>,
    ytdlp: Option<YtDlpReply>,
    asked: Vec<String>,
    written: Vec<String>,
    ytdlp_requests: Vec<String>,
    config_reads: usize,
}

/// What a request whose URL contains a given text is answered.
enum HttpAnswer {
    Body(u16, String),
    HostError(String),
    BadEnvelope(String),
}

fn host(answers: Vec<(&str, HttpAnswer)>) -> Host {
    Host {
        stored_id: Ok("test-client-id".into()),
        answers: answers.into_iter().map(|(url, a)| (url.to_string(), a)).collect(),
        ytdlp: None,
        asked: vec![],
        written: vec![],
        ytdlp_requests: vec![],
        config_reads: 0,
    }
}

fn body(text: &str) -> HttpAnswer {
    HttpAnswer::Body(200, text.to_string())
}

impl Host {
    fn http(&mut self, request: &str) -> HttpReply {
        let request: Value = serde_json::from_str(request).unwrap();
        assert_eq!(request["method"], "GET");
        assert_eq!(request.as_object().unwrap().len(), 2);
        let url = request["url"].as_str().unwrap().to_string();
        self.asked.push(url.clone());
        for (part, answer) in &self.answers {
            if url.contains(part.as_str()) {
                return match answer {
                    HttpAnswer::Body(status, text) => HttpReply::Response(HttpResponse {
                        status: *status,
                        headers: HashMap::new(),
                        body: text.clone(),
                    }),
                    HttpAnswer::HostError(m) => HttpReply::HostError(m.clone()),
                    HttpAnswer::BadEnvelope(m) => HttpReply::BadEnvelope(m.clone()),
                };
            }
        }
        panic!("unexpected HTTP request URL: {url}")
    }

    fn run(&mut self, first: Step) -> Outcome {
        let mut step = first;
        loop {
            step = match step {
                Step::ReadConfig { key, then } => {
                    assert_eq!(key, "client_id");
                    self.config_reads += 1;
                    then.resume(self.stored_id.clone())
                }
                Step::WriteConfig { entry, then } => {
                    self.written.push(entry);
                    then.resume()
                }
                Step::SendHttp { request, then } => {
                    let reply = self.http(&request);
                    then.resume(reply)
                }
                Step::DecodeResolve { body, then } => then.resume(resolved(&body)),
                Step::DecodeTracks { body, then } => then.resume(page(&body)),
                Step::DecodeStreamUrl { body, then } => {
                    let value: Result<Value, String> =
                        serde_json::from_str(&body).map_err(|e| e.to_string());
                    then.resume(value.map(|v| text(&v["url"]).unwrap()))
                }
                Step::RunYtDlp { request, then } => {
                    self.ytdlp_requests.push(request);
                    then.resume(self.ytdlp.take().unwrap())
                }
                Step::Done(outcome) => return outcome,
            };
        }
    }
}

fn json_of(outcome: Outcome) -> Value {
    match outcome {
        Outcome::Links(links) => serde_json::from_str(&links.to_json().unwrap()).unwrap(),
        _ => panic!("no links"),
    }
}

fn text_of(outcome: Outcome) -> String {
    match outcome {
        Outcome::Text(text) => text,
        _ => panic!("no text"),
    }
}

fn error_of(outcome: Outcome) -> PluginError {
    match outcome {
        Outcome::Failed(error) => error,
        _ => panic!("no error"),
    }
}

fn finished(stdout: &str, exit_code: i32) -> Option<YtDlpReply> {
    Some(YtDlpReply::Response(YtDlpResponse {
        exit_code,
        stdout: stdout.into(),
        stderr: " oops ".into(),
    }))
}

// ── Tests ─────────────────────────────────────────────────────────────────────

#[test]
fn test_release_wasm_exports_and_typed_broker_contract() {
    let mut plugin = host(vec![
        ("%2Fsets%2F", body(PLAYLIST_BODY)),
        ("/resolve?", body(TRACK_BODY)),
        (
            STREAM_API_URL,
            body(r#"{"url":"https://cdn.example.test/demo-track.mp3"}"#),
        ),
    ]);
    plugin.ytdlp = finished(&format!("{DOWNLOAD_PATH}\n"), 0);

    let can_handle = handle_can_handle(TRACK_URL);
    let supports_playlist = handle_supports_playlist(PLAYLIST_URL);
    let links = json_of(plugin.run(extract_links(TRACK_URL)));
    let track = json_of(plugin.run(extract_track(TRACK_URL)));
    let playlist = json_of(plugin.run(extract_playlist(PLAYLIST_URL)));
    let stream = text_of(plugin.run(resolve_stream_url(TRACK_URL)));
    let path = text_of(plugin.run(download_to_file(TRACK_URL, "mp3", DOWNLOAD_DIR)));

    assert_eq!(can_handle.trim(), "true");
    assert_eq!(supports_playlist.trim(), "true");
    assert_eq!(links["kind"], "track");
    assert_eq!(track["kind"], "track");
    assert_eq!(playlist["kind"], "playlist");
    assert_eq!(stream, STREAM_CDN_URL);
    assert_eq!(path, DOWNLOAD_PATH);
    assert_eq!(plugin.ytdlp_requests.len(), 1);
    let request: Value = serde_json::from_str(&plugin.ytdlp_requests[0]).unwrap();
    let object = request.as_object().unwrap();
    assert_eq!(object.len(), 6);
    assert_eq!(object["action"], "download");
    assert_eq!(object["url"], TRACK_URL);
    assert_eq!(object["quality"], Value::Null);
    assert_eq!(object["format"], "mp3");
    assert_eq!(object["output_dir"], DOWNLOAD_DIR);
    assert_eq!(object["audio_only"], true);
}

#[test]
fn refused_urls_ask_the_host_for_nothing() {
    let other = "https://example.com/a";
    let mut plugin = host(vec![]);
    assert!(matches!(
        error_of(plugin.run(extract_links(other))),
        PluginError::UnsupportedUrl(u) if u == other
    ));
    assert!(matches!(
        error_of(plugin.run(extract_playlist(TRACK_URL))),
        PluginError::UnsupportedResourceKind { url, .. } if url == TRACK_URL
    ));
    assert!(matches!(
        error_of(plugin.run(extract_track(ARTIST_URL))),
        PluginError::UnsupportedResourceKind { url, .. } if url == ARTIST_URL
    ));
    assert!(matches!(
        error_of(plugin.run(resolve_stream_url(PLAYLIST_URL))),
        PluginError::UnsupportedResourceKind { .. }
    ));
    assert!(matches!(
        error_of(plugin.run(download_to_file(other, "mp3", "/tmp"))),
        PluginError::UnsupportedUrl(u) if u == other
    ));
    assert_eq!(plugin.config_reads, 0);
    assert!(plugin.ytdlp_requests.is_empty());
}

#[test]
fn resolved_kind_has_to_fit_the_operation() {
    let mut plugin = host(vec![("/resolve?", body(TRACK_BODY))]);
    match error_of(plugin.run(extract_playlist(PLAYLIST_URL))) {
        PluginError::UnsupportedUrl(m) => {
            assert_eq!(m, "single track cannot be extracted as playlist")
        }
        other => panic!("unexpected {other:?}"),
    }
    let mut plugin = host(vec![("/resolve?", body(PLAYLIST_BODY))]);
    for step in [extract_track(TRACK_URL), resolve_stream_url(TRACK_URL)] {
        match error_of(plugin.run(step)) {
            PluginError::UnsupportedUrl(m) => assert_eq!(m, "resolved resource is not a track"),
            other => panic!("unexpected {other:?}"),
        }
    }
    assert_eq!(json_of(plugin.run(extract_links(TRACK_URL)))["kind"], "playlist");
    let mut plugin = host(vec![("/resolve?", body(r#"{"kind":"system-playlist"}"#))]);
    match error_of(plugin.run(extract_playlist(PLAYLIST_URL))) {
        PluginError::UnsupportedUrl(m) => assert_eq!(m, "unknown resource kind"),
        other => panic!("unexpected {other:?}"),
    }
    match error_of(plugin.run(extract_links(PLAYLIST_URL))) {
        PluginError::UnsupportedUrl(m) => assert_eq!(m, "unknown SoundCloud resource kind"),
        other => panic!("unexpected {other:?}"),
    }
}

#[test]
fn api_failures() {
    let mut plugin = host(vec![(
        "/resolve?",
        HttpAnswer::HostError("capability denied".into()),
    )]);
    match plugin.run(extract_links(TRACK_URL)) {
        Outcome::HostFailed(m) => assert_eq!(m, "capability denied"),
        _ => panic!("the host's own error is passed on"),
    }
    let mut plugin = host(vec![("/resolve?", HttpAnswer::BadEnvelope("no status".into()))]);
    match error_of(plugin.run(extract_links(TRACK_URL))) {
        PluginError::HostResponse(m) => assert_eq!(m, "no status"),
        other => panic!("unexpected {other:?}"),
    }
    let mut plugin = host(vec![("/resolve?", HttpAnswer::Body(404, "gone".into()))]);
    match error_of(plugin.run(extract_links(TRACK_URL))) {
        PluginError::HttpStatus { status, message } => {
            assert_eq!(status, 404);
            assert_eq!(message, "gone");
        }
        other => panic!("unexpected {other:?}"),
    }
    let mut plugin = host(vec![("/resolve?", body("not json"))]);
    assert!(matches!(
        error_of(plugin.run(extract_links(TRACK_URL))),
        PluginError::ParseJson(_)
    ));
    let mut plugin = host(vec![]);
    plugin.stored_id = Err("locked".into());
    match error_of(plugin.run(extract_links(TRACK_URL))) {
        PluginError::HostResponse(m) => assert_eq!(m, "locked"),
        other => panic!("unexpected {other:?}"),
    }
}

#[test]
fn stored_client_id_goes_on_the_request() {
    let mut plugin = host(vec![("/resolve?", body(TRACK_BODY))]);
    plugin.run(extract_links(TRACK_URL));
    assert_eq!(
        plugin.asked,
        vec![
            "https://api-v2.soundcloud.com/resolve?\
             url=https%3A%2F%2Fsoundcloud.com%2Fvortex%2Fdemo-track&client_id=test-client-id"
        ]
    );
    assert!(plugin.written.is_empty());
}

const HOME: &str = "<script src=\"https://a-v2.sndcdn.com/assets/0-a.js\"></script>\
                    <script src=\"https://a-v2.sndcdn.com/assets/1-b.js\"></script>\
                    <script src=\"https://a-v2.sndcdn.com/assets/2-c.js\"></script>\
                    <script src=\"https://a-v2.sndcdn.com/assets/3-d.js\"></script>";

fn without_id(mut answers: Vec<(&str, HttpAnswer)>) -> Host {
    answers.push(("/resolve?", body(TRACK_BODY)));
    answers.push(("https://soundcloud.com/", body(HOME)));
    let mut plugin = host(answers);
    plugin.stored_id = Ok(String::new());
    plugin
}

#[test]
fn client_id_is_found_in_the_first_bundle_that_has_one() {
    let mut plugin = without_id(vec![
        ("0-a.js", body("polyfill")),
        ("1-b.js", HttpAnswer::Body(503, "busy".into())),
        ("2-c.js", body("x,client_id:\"AbC123\",y")),
        ("3-d.js", body("client_id:\"other\"")),
    ]);
    assert_eq!(json_of(plugin.run(extract_links(TRACK_URL)))["kind"], "track");
    assert_eq!(
        plugin.written,
        vec!["{\"key\":\"client_id\",\"value\":\"AbC123\"}"]
    );
    assert_eq!(
        plugin.asked,
        vec![
            "https://soundcloud.com/",
            "https://a-v2.sndcdn.com/assets/0-a.js",
            "https://a-v2.sndcdn.com/assets/1-b.js",
            "https://a-v2.sndcdn.com/assets/2-c.js",
            "https://api-v2.soundcloud.com/resolve?\
             url=https%3A%2F%2Fsoundcloud.com%2Fvortex%2Fdemo-track&client_id=AbC123",
        ]
    );
}

#[test]
fn failed_search_reports_the_latest_error() {
    let mut plugin = without_id(vec![
        ("0-a.js", HttpAnswer::HostError("first".into())),
        ("1-b.js", HttpAnswer::HostError("second".into())),
        ("2-c.js", body("client_id:\"!\"")),
        ("3-d.js", body("nothing")),
    ]);
    match error_of(plugin.run(extract_links(TRACK_URL))) {
        PluginError::HostResponse(m) => assert_eq!(m, "second"),
        other => panic!("unexpected {other:?}"),
    }
    assert_eq!(plugin.asked.len(), 5);
    assert!(plugin.written.is_empty());
}

#[test]
fn failed_search_without_error_says_so() {
    let mut plugin = without_id(vec![(".js", body("nothing"))]);
    match error_of(plugin.run(extract_links(TRACK_URL))) {
        PluginError::HostResponse(m) => {
            assert_eq!(m, "no client_id marker in any SoundCloud bundle")
        }
        other => panic!("unexpected {other:?}"),
    }
    let mut plugin = host(vec![("https://soundcloud.com/", body("<html></html>"))]);
    plugin.stored_id = Ok(String::new());
    assert!(matches!(
        error_of(plugin.run(extract_links(TRACK_URL))),
        PluginError::HostResponse(_)
    ));
    assert_eq!(plugin.asked.len(), 1);
}

#[test]
fn homepage_that_cannot_be_had_ends_the_search() {
    let mut plugin = host(vec![("https://soundcloud.com/", HttpAnswer::Body(403, "".into()))]);
    plugin.stored_id = Ok(String::new());
    match error_of(plugin.run(extract_links(TRACK_URL))) {
        PluginError::Private(m) => assert_eq!(m, "status 403"),
        other => panic!("unexpected {other:?}"),
    }
    let mut plugin = host(vec![(
        "https://soundcloud.com/",
        HttpAnswer::HostError("offline".into()),
    )]);
    plugin.stored_id = Ok(String::new());
    match error_of(plugin.run(extract_links(TRACK_URL))) {
        PluginError::HostResponse(m) => assert_eq!(m, "offline"),
        other => panic!("unexpected {other:?}"),
    }
}

fn track_with(transcodings: &str) -> String {
    format!("{{\"kind\":\"track\",\"title\":\"t\",\"media\":{{\"transcodings\":[{transcodings}]}}}}")
}

#[test]
fn only_progressive_streams_are_resolved() {
    let hls = r#"{"url":"https://x/hls","format":{"protocol":"hls"}}"#;
    let progressive = r#"{"url":"https://x/prog?a=1","format":{"protocol":"progressive"}}"#;
    let stream = |transcodings: String| {
        let track = track_with(&transcodings);
        let mut plugin = host(vec![
            ("/resolve?", body(&track)),
            ("https://x/prog", body("{\"url\":\"https://cdn/a\"}")),
        ]);
        let outcome = plugin.run(resolve_stream_url(TRACK_URL));
        (outcome, plugin.asked)
    };
    let (outcome, asked) = stream(format!("{hls},{progressive}"));
    assert_eq!(text_of(outcome), "https://cdn/a");
    assert_eq!(asked[1], "https://x/prog?a=1&client_id=test-client-id");
    let (outcome, asked) = stream(hls.to_string());
    assert!(matches!(error_of(outcome), PluginError::AdaptiveStreamOnly));
    assert_eq!(asked.len(), 1);
    let (outcome, _) = stream(String::new());
    assert!(matches!(error_of(outcome), PluginError::NoStreamAvailable));
    let mut plugin = host(vec![("/resolve?", body(r#"{"kind":"track","title":"t"}"#))]);
    assert!(matches!(
        error_of(plugin.run(resolve_stream_url(TRACK_URL))),
        PluginError::NoStreamAvailable
    ));
    let track = track_with(progressive);
    let mut plugin = host(vec![
        ("/resolve?", body(&track)),
        ("https://x/prog", body("not json")),
    ]);
    assert!(matches!(
        error_of(plugin.run(resolve_stream_url(TRACK_URL))),
        PluginError::ParseJson(_)
    ));
}

const USER_BODY: &str =
    r#"{"kind":"user","id":42,"username":"forss","avatar_url":"https://i1.sndcdn.com/a-large.jpg"}"#;

#[test]
fn artist_tracks_are_gathered_from_all_pages() {
    let first = r#"{"collection":[
        {"id":1,"title":"one","permalink_url":"https://s/1"},
        {"id":2,"title":"two"},
        {"id":1,"title":"again","permalink_url":"https://s/1b"}
    ],"next_href":"https://api-v2.soundcloud.com/users/42/tracks?cursor=2"}"#;
    let second = r#"{"collection":[
        {"id":2,"title":"two, with a link now","permalink_url":"https://s/2"},
        {"id":3,"title":"three","permalink_url":"  "},
        {"id":4,"title":"four","permalink_url":"https://s/4"}
    ],"next_href":" "}"#;
    for step in [extract_links(ARTIST_URL), extract_playlist(ARTIST_URL)] {
        let mut plugin = host(vec![
            ("/resolve?", body(USER_BODY)),
            ("cursor=2", body(second)),
            ("/users/42/tracks?linked", body(first)),
        ]);
        let answer = json_of(plugin.run(step));
        assert_eq!(answer["kind"], "artist");
        assert_eq!(answer["title"], "forss");
        // The avatar is no artwork.
        assert_eq!(answer["artwork_url"], "https://i1.sndcdn.com/a-large.jpg");
        let titles: Vec<String> = list(&answer["tracks"])
            .iter()
            .map(|t| text(&t["title"]).unwrap())
            .collect();
        assert_eq!(titles, vec!["one", "four"]);
        assert_eq!(
            plugin.asked[1..],
            [
                "https://api-v2.soundcloud.com/users/42/tracks?linked_partitioning=true&\
                 page_size=50&client_id=test-client-id",
                "https://api-v2.soundcloud.com/users/42/tracks?cursor=2&client_id=test-client-id",
            ]
        );
        assert_eq!(plugin.config_reads, 2);
    }
}

#[test]
fn artist_pages_stop_at_the_limit() {
    let endless = r#"{"collection":[{"id":1,"title":"one","permalink_url":"https://s/1"}],
        "next_href":"https://api-v2.soundcloud.com/users/42/tracks?more"}"#;
    let mut plugin = host(vec![
        ("/resolve?", body(USER_BODY)),
        ("/users/42/tracks", body(endless)),
    ]);
    let answer = json_of(plugin.run(extract_links(ARTIST_URL)));
    assert_eq!(list(&answer["tracks"]).len(), 1);
    assert_eq!(plugin.asked.len(), 21);
}

#[test]
fn artist_errors() {
    let mut plugin = host(vec![
        ("/resolve?", body(USER_BODY)),
        ("/users/42/tracks", body(r#"{"collection":[{"id":1,"title":"one"}]}"#)),
    ]);
    match error_of(plugin.run(extract_links(ARTIST_URL))) {
        PluginError::UnsupportedUrl(m) => {
            assert_eq!(m, "artist profile 'forss' has no downloadable public tracks")
        }
        other => panic!("unexpected {other:?}"),
    }
    let mut plugin = host(vec![("/resolve?", body(r#"{"kind":"user","username":"x"}"#))]);
    match error_of(plugin.run(extract_playlist(ARTIST_URL))) {
        PluginError::UnsupportedUrl(m) => assert_eq!(
            m,
            "artist profile 'x' has no stable id or urn in the resolve response"
        ),
        other => panic!("unexpected {other:?}"),
    }
    let mut plugin = host(vec![
        ("/resolve?", body(USER_BODY)),
        ("/users/42/tracks", body("not json")),
    ]);
    assert!(matches!(
        error_of(plugin.run(extract_links(ARTIST_URL))),
        PluginError::ParseJson(_)
    ));
    let mut plugin = host(vec![
        ("/resolve?", body(USER_BODY)),
        ("/users/42/tracks", HttpAnswer::HostError("down".into())),
    ]);
    assert!(matches!(
        plugin.run(extract_links(ARTIST_URL)),
        Outcome::HostFailed(m) if m == "down"
    ));
}

#[test]
fn download_outcomes() {
    let download = |reply: Option<YtDlpReply>| {
        let mut plugin = host(vec![]);
        plugin.ytdlp = reply;
        plugin.run(download_to_file(TRACK_URL, "ogg", "/d"))
    };
    assert_eq!(text_of(download(finished("x\n /d/t.ogg \n\n", 0))), "/d/t.ogg");
    assert!(matches!(
        error_of(download(finished(" \n", 0))),
        PluginError::NoStreamAvailable
    ));
    match error_of(download(finished("/d/t.ogg", 1))) {
        PluginError::Subprocess { exit_code, stderr } => {
            assert_eq!(exit_code, 1);
            assert_eq!(stderr, "oops");
        }
        other => panic!("unexpected {other:?}"),
    }
    assert!(matches!(
        download(Some(YtDlpReply::HostError("no broker".into()))),
        Outcome::HostFailed(m) if m == "no broker"
    ));
    let bad = serde_json::from_str::<Value>("{").unwrap_err();
    assert!(matches!(
        error_of(download(Some(YtDlpReply::BadEnvelope(bad)))),
        PluginError::SerdeJson(_)
    ));
}
