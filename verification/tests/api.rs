use std::collections::HashMap;

use vortex_mod_soundcloud::api::{
    append_client_id, build_resolve_request, build_stream_request, build_user_tracks_request,
    pick_best_transcoding, stable_resource_id, track_resource_id, user_resource_id, ApiId,
    HttpRequest, HttpResponse, Track, TrackMedia, Transcoding, TranscodingFormat, User,
};
use vortex_mod_soundcloud::encoding::{truncate, urlencode};
use vortex_mod_soundcloud::error::PluginError;

fn transcoding(url: &str, protocol: &str) -> Transcoding {
    Transcoding {
        url: url.into(),
        format: Some(TranscodingFormat {
            protocol: protocol.into(),
            mime_type: "".into(),
        }),
        quality: None,
    }
}

#[test]
fn http_response_2xx_returns_body() {
    let resp = HttpResponse {
        status: 200,
        headers: HashMap::new(),
        body: "ok".into(),
    };
    assert_eq!(resp.into_success_body().unwrap(), "ok");
}

#[test]
fn http_response_401_is_private() {
    let resp = HttpResponse {
        status: 401,
        headers: HashMap::new(),
        body: "forbidden".into(),
    };
    assert!(matches!(
        resp.into_success_body().unwrap_err(),
        PluginError::Private(_)
    ));
}

#[test]
fn http_response_500_is_http_status_error() {
    let resp = HttpResponse {
        status: 500,
        headers: HashMap::new(),
        body: "boom".into(),
    };
    match resp.into_success_body().unwrap_err() {
        PluginError::HttpStatus { status, .. } => assert_eq!(status, 500),
        other => panic!("unexpected {other:?}"),
    }
}

#[test]
fn status_borders() {
    let answer = |status: u16| {
        HttpResponse {
            status,
            headers: HashMap::new(),
            body: "b".into(),
        }
        .into_success_body()
    };
    assert_eq!(answer(204).unwrap(), "b");
    assert_eq!(answer(299).unwrap(), "b");
    assert!(matches!(
        answer(199).unwrap_err(),
        PluginError::HttpStatus { status: 199, .. }
    ));
    assert!(matches!(
        answer(300).unwrap_err(),
        PluginError::HttpStatus { status: 300, .. }
    ));
    match answer(403).unwrap_err() {
        PluginError::Private(m) => assert_eq!(m, "status 403"),
        other => panic!("unexpected {other:?}"),
    }
    match answer(404).unwrap_err() {
        PluginError::HttpStatus { status, message } => {
            assert_eq!(status, 404);
            assert_eq!(message, "b");
        }
        other => panic!("unexpected {other:?}"),
    }
}

#[test]
fn long_error_bodies_are_cut_at_a_character() {
    assert_eq!(truncate("abc", 3), "abc");
    assert_eq!(truncate("abcd", 3), "abc\u{2026}");
    assert_eq!(truncate("", 0), "");
    assert_eq!(truncate("a", 0), "\u{2026}");
    // Three bytes each: two fit into eight.
    assert_eq!(
        truncate("\u{20ac}\u{20ac}\u{20ac}", 8),
        "\u{20ac}\u{20ac}\u{2026}"
    );
    assert_eq!(truncate("\u{e9}x", 2), "\u{e9}\u{2026}");
    assert_eq!(truncate("\u{1d11e}x", 4), "\u{1d11e}\u{2026}");
    let resp = HttpResponse {
        status: 500,
        headers: HashMap::new(),
        body: "x".repeat(257),
    };
    match resp.into_success_body().unwrap_err() {
        PluginError::HttpStatus { message, .. } => {
            assert_eq!(message, format!("{}\u{2026}", "x".repeat(256)));
        }
        other => panic!("unexpected {other:?}"),
    }
}

#[test]
fn urlencode_roundtrips_safe_chars() {
    assert_eq!(urlencode("abc-_.~"), "abc-_.~");
    assert_eq!(
        urlencode("https://soundcloud.com/a/b"),
        "https%3A%2F%2Fsoundcloud.com%2Fa%2Fb"
    );
}

#[test]
fn urlencode_goes_byte_by_byte() {
    assert_eq!(urlencode(""), "");
    assert_eq!(urlencode("%"), "%25");
    assert_eq!(urlencode("a b+c"), "a%20b%2Bc");
    assert_eq!(urlencode("\u{e9}\u{20ac}\u{1d11e}"), "%C3%A9%E2%82%AC%F0%9D%84%9E");
    assert_eq!(urlencode("\u{0}\u{7f}"), "%00%7F");
    assert_ne!(urlencode("%20"), urlencode(" "));
}

#[test]
fn build_resolve_request_encodes_target() {
    let req_str =
        build_resolve_request("https://soundcloud.com/forss/flickermood", "abc123").unwrap();
    assert!(req_str.contains("\"method\":\"GET\""));
    assert!(req_str.contains("client_id=abc123"));
    assert!(req_str.contains("url=https%3A%2F%2Fsoundcloud.com%2Fforss%2Fflickermood"));
}

#[test]
fn resolve_request_text() {
    assert_eq!(
        build_resolve_request("https://soundcloud.com/a", "i d").unwrap(),
        "{\"method\":\"GET\",\"url\":\"https://api-v2.soundcloud.com/resolve?\
         url=https%3A%2F%2Fsoundcloud.com%2Fa&client_id=i%20d\"}"
    );
}

#[test]
fn build_user_tracks_request_uses_initial_collection_endpoint() {
    let req_str = build_user_tracks_request("soundcloud:users:42", "abc123", None).unwrap();
    assert!(req_str.contains("users/soundcloud%3Ausers%3A42/tracks"));
    assert!(req_str.contains("linked_partitioning=true"));
    assert!(req_str.contains("page_size=50"));
    assert!(req_str.contains("client_id=abc123"));
}

#[test]
fn build_user_tracks_request_preserves_next_href_cursor() {
    let req_str = build_user_tracks_request(
        "ignored",
        "abc123",
        Some("https://api-v2.soundcloud.com/users/42/tracks?linked_partitioning=true&cursor=next-page"),
    )
    .unwrap();
    assert!(req_str.contains("cursor=next-page"));
    assert!(req_str.contains("client_id=abc123"));
}

#[test]
fn page_request_is_not_given_a_second_client_id() {
    let req_str =
        build_user_tracks_request("u", "abc", Some("https://x/p?client_id=own&c=1")).unwrap();
    assert_eq!(
        req_str,
        "{\"method\":\"GET\",\"url\":\"https://x/p?client_id=own&c=1\"}"
    );
    let req_str = build_user_tracks_request("u", "abc", Some("https://x/p")).unwrap();
    assert_eq!(
        req_str,
        "{\"method\":\"GET\",\"url\":\"https://x/p?client_id=abc\"}"
    );
}

#[test]
fn requests_are_escaped_json() {
    let req_str = build_stream_request("https://x/\"\\\n\u{1}\u{1f}\u{7f}\u{e9}", "id").unwrap();
    assert_eq!(
        req_str,
        "{\"method\":\"GET\",\"url\":\"https://x/\\\"\\\\\\n\\u0001\\u001f\u{7f}\u{e9}?client_id=id\"}"
    );
    let value: serde_json::Value = serde_json::from_str(&req_str).unwrap();
    assert_eq!(
        value["url"],
        "https://x/\"\\\n\u{1}\u{1f}\u{7f}\u{e9}?client_id=id"
    );
}

#[test]
fn every_ascii_character_survives_a_request() {
    let mut url = String::new();
    for b in 0u8..128 {
        url.push(b as char);
    }
    let text = HttpRequest::get(url.clone()).to_json().unwrap();
    let value: serde_json::Value = serde_json::from_str(&text).unwrap();
    assert_eq!(value["url"].as_str().unwrap(), url);
}

#[test]
fn request_with_headers_and_body() {
    let mut headers = HashMap::new();
    headers.insert("Accept".to_string(), "application/json".to_string());
    headers.insert("X-\"Q\"".to_string(), "a\tb".to_string());
    let request = HttpRequest {
        method: "POST".into(),
        url: "https://x/".into(),
        headers,
        body: Some("{\"k\":1}".into()),
    };
    let value: serde_json::Value = serde_json::from_str(&request.to_json().unwrap()).unwrap();
    assert_eq!(value["method"], "POST");
    assert_eq!(value["url"], "https://x/");
    assert_eq!(value["headers"]["Accept"], "application/json");
    assert_eq!(value["headers"]["X-\"Q\""], "a\tb");
    assert_eq!(value["body"], "{\"k\":1}");
    assert_eq!(value.as_object().unwrap().len(), 4);
    assert_eq!(value["headers"].as_object().unwrap().len(), 2);
}

#[test]
fn pick_best_transcoding_prefers_progressive_over_hls() {
    let transcodings = vec![
        Transcoding {
            url: "hls_url".into(),
            format: Some(TranscodingFormat {
                protocol: "hls".into(),
                mime_type: "".into(),
            }),
            quality: None,
        },
        Transcoding {
            url: "prog_url".into(),
            format: Some(TranscodingFormat {
                protocol: "progressive".into(),
                mime_type: "".into(),
            }),
            quality: None,
        },
    ];
    assert_eq!(
        pick_best_transcoding(&transcodings).unwrap().url,
        "prog_url"
    );
}

#[test]
fn pick_best_transcoding_falls_back_to_hls() {
    let transcodings = vec![Transcoding {
        url: "hls_url".into(),
        format: Some(TranscodingFormat {
            protocol: "hls".into(),
            mime_type: "".into(),
        }),
        quality: None,
    }];
    assert_eq!(pick_best_transcoding(&transcodings).unwrap().url, "hls_url");
}

#[test]
fn pick_best_transcoding_returns_none_for_empty() {
    assert!(pick_best_transcoding(&[]).is_none());
}

#[test]
fn pick_best_transcoding_takes_the_first_of_a_protocol() {
    let ts = vec![
        transcoding("other", "dash"),
        transcoding("h1", "hls"),
        transcoding("p1", "progressive"),
        transcoding("p2", "progressive"),
    ];
    assert_eq!(pick_best_transcoding(&ts).unwrap().url, "p1");
    assert_eq!(pick_best_transcoding(&ts[..2]).unwrap().url, "h1");
    assert!(pick_best_transcoding(&ts[..1]).is_none());
    let bare = Transcoding {
        url: "x".into(),
        format: None,
        quality: None,
    };
    assert!(pick_best_transcoding(&[bare]).is_none());
}

#[test]
fn build_stream_request_appends_client_id_without_existing_query() {
    let req_str = build_stream_request("https://cf-media.sndcdn.com/123", "myid").unwrap();
    assert!(req_str.contains("client_id=myid"));
    assert!(req_str.contains("?client_id="));
}

#[test]
fn build_stream_request_uses_ampersand_when_query_already_present() {
    let req_str = build_stream_request("https://cf-media.sndcdn.com/123?foo=bar", "myid").unwrap();
    assert!(req_str.contains("&client_id=myid"));
}

#[test]
fn identifiers() {
    assert_eq!(ApiId::Numeric(0).as_string(), "0");
    assert_eq!(ApiId::Numeric(12345).as_string(), "12345");
    assert_eq!(ApiId::Numeric(u64::MAX).as_string(), "18446744073709551615");
    assert_eq!(ApiId::Text("a1".into()).as_string(), "a1");
    let urn = String::from("soundcloud:users:42");
    let id = ApiId::Numeric(42);
    assert_eq!(
        stable_resource_id(Some(&urn), Some(&id)).as_deref(),
        Some("soundcloud:users:42")
    );
    assert_eq!(stable_resource_id(None, Some(&id)).as_deref(), Some("42"));
    assert_eq!(stable_resource_id(None, None), None);
    let user = User {
        id: Some(ApiId::Numeric(42)),
        urn: None,
        username: "forss".into(),
        permalink_url: None,
        avatar_url: None,
    };
    assert_eq!(user_resource_id(&user).as_deref(), Some("42"));
    let track = Track {
        id: None,
        urn: None,
        title: "t".into(),
        duration: None,
        permalink_url: None,
        artwork_url: None,
        user: None,
        metadata_artist: None,
        streamable: None,
        media: Some(TrackMedia::default()),
    };
    assert_eq!(track_resource_id(&track), None);
    assert!(track.media.unwrap().transcodings.is_empty());
    assert_eq!(TranscodingFormat::default().protocol, "");
}

#[test]
fn client_id_is_appended_at_most_once() {
    assert_eq!(append_client_id("https://x/p", "a b"), "https://x/p?client_id=a%20b");
    assert_eq!(append_client_id("https://x/p?q", "id"), "https://x/p?q&client_id=id");
    for url in ["", "https://x/p", "https://x/p?q", "https://x/p?client_id=own"] {
        let once = append_client_id(url, "first");
        assert!(once.starts_with(url));
        assert!(once.contains("client_id="));
        assert_eq!(once == url, url.contains("client_id="));
        assert_eq!(append_client_id(&once, "second"), once);
    }
}
