use vortex_mod_soundcloud::api::{ApiId, Playlist, ResolveResponse, Track, TrackUser, User};
use vortex_mod_soundcloud::error::PluginError;
use vortex_mod_soundcloud::url_matcher::UrlKind;
use vortex_mod_soundcloud::{
    build_artist_response, build_playlist_response, build_single_track_response, ensure_playlist,
    ensure_soundcloud_url, ensure_track, handle_can_handle, handle_supports_playlist,
    response_to_extract_links, stable_track_link_id, track_to_link,
};

fn sample_track() -> Track {
    Track {
        id: Some(ApiId::Numeric(1)),
        urn: None,
        title: "Flickermood".into(),
        duration: Some(225_000),
        permalink_url: Some("https://soundcloud.com/forss/flickermood".into()),
        artwork_url: Some("https://i1.sndcdn.com/artworks-12345-large.jpg".into()),
        user: Some(TrackUser {
            username: "Forss".into(),
        }),
        metadata_artist: None,
        streamable: Some(true),
        media: None,
    }
}

/// The artwork URL of the link for a track with the given artwork URL.
fn artwork_of(url: &str) -> Option<String> {
    let mut t = sample_track();
    t.artwork_url = Some(url.into());
    track_to_link(t).artwork_url
}

#[test]
fn can_handle_recognises_track() {
    assert_eq!(
        handle_can_handle("https://soundcloud.com/forss/flickermood"),
        "true"
    );
}

#[test]
fn can_handle_rejects_unrelated_host() {
    assert_eq!(handle_can_handle("https://example.com/"), "false");
}

#[test]
fn can_handle_accepts_artist_profile() {
    assert_eq!(handle_can_handle("https://soundcloud.com/forss"), "true");
}

#[test]
fn can_handle_accepts_on_short_link() {
    assert_eq!(
        handle_can_handle("https://on.soundcloud.com/AbCdEfGhIj"),
        "true"
    );
}

#[test]
fn supports_playlist_true_for_sets() {
    assert_eq!(
        handle_supports_playlist("https://soundcloud.com/forss/sets/soulhack"),
        "true"
    );
}

#[test]
fn supports_playlist_false_for_single_track() {
    assert_eq!(
        handle_supports_playlist("https://soundcloud.com/forss/flickermood"),
        "false"
    );
}

#[test]
fn supports_playlist_true_for_artist_profile() {
    assert_eq!(
        handle_supports_playlist("https://soundcloud.com/forss"),
        "true"
    );
}

#[test]
fn supports_playlist_false_for_unrelated_host() {
    assert_eq!(handle_supports_playlist("https://example.com/forss"), "false");
}

#[test]
fn ensure_soundcloud_url_accepts_artist_profile() {
    assert_eq!(
        ensure_soundcloud_url("https://soundcloud.com/forss").unwrap(),
        UrlKind::Artist
    );
}

#[test]
fn ensure_soundcloud_url_accepts_tracks_and_playlists() {
    assert_eq!(
        ensure_soundcloud_url("https://soundcloud.com/forss/flickermood").unwrap(),
        UrlKind::Track
    );
    assert_eq!(
        ensure_soundcloud_url("https://soundcloud.com/forss/sets/soulhack").unwrap(),
        UrlKind::Playlist
    );
}

#[test]
fn ensure_soundcloud_url_rejects_non_soundcloud_as_unsupported_url() {
    let err = ensure_soundcloud_url("https://example.com/").unwrap_err();
    assert!(matches!(err, PluginError::UnsupportedUrl(_)));
}

#[test]
fn ensure_track_rejects_playlist_as_kind_mismatch() {
    let err = ensure_track("https://soundcloud.com/forss/sets/soulhack").unwrap_err();
    assert!(matches!(
        err,
        PluginError::UnsupportedResourceKind {
            kind: UrlKind::Playlist,
            ..
        }
    ));
}

#[test]
fn ensure_track_names_the_url_that_it_rejects() {
    assert!(ensure_track("https://soundcloud.com/forss/flickermood").is_ok());
    match ensure_track("https://soundcloud.com/forss").unwrap_err() {
        PluginError::UnsupportedResourceKind { kind, url } => {
            assert_eq!(kind, UrlKind::Artist);
            assert_eq!(url, "https://soundcloud.com/forss");
        }
        other => panic!("unexpected {other:?}"),
    }
    match ensure_track("https://example.com/a/b").unwrap_err() {
        PluginError::UnsupportedUrl(url) => assert_eq!(url, "https://example.com/a/b"),
        other => panic!("unexpected {other:?}"),
    }
}

#[test]
fn ensure_playlist_rejects_track_as_kind_mismatch() {
    let err = ensure_playlist("https://soundcloud.com/forss/flickermood").unwrap_err();
    assert!(matches!(
        err,
        PluginError::UnsupportedResourceKind {
            kind: UrlKind::Track,
            ..
        }
    ));
}

#[test]
fn ensure_playlist_accepts_collections() {
    assert!(ensure_playlist("https://soundcloud.com/forss").is_ok());
    assert!(ensure_playlist("https://soundcloud.com/forss/likes").is_ok());
    assert!(ensure_playlist("https://soundcloud.com/forss/sets/soulhack").is_ok());
    assert!(matches!(
        ensure_playlist("https://example.com/").unwrap_err(),
        PluginError::UnsupportedUrl(_)
    ));
}

#[test]
fn track_to_link_upgrades_artwork() {
    let link = track_to_link(sample_track());
    assert_eq!(link.id, "1");
    assert_eq!(link.title, "Flickermood");
    assert_eq!(link.artist.as_deref(), Some("Forss"));
    assert_eq!(link.duration_ms, Some(225_000));
    assert_eq!(
        link.artwork_url.as_deref(),
        Some("https://i1.sndcdn.com/artworks-12345-t500x500.jpg"),
        "large artwork marker should be upgraded to t500x500"
    );
}

#[test]
fn track_to_link_preserves_non_large_artwork() {
    let mut t = sample_track();
    t.artwork_url = Some("https://i1.sndcdn.com/artworks-12345-t500x500.jpg".into());
    let link = track_to_link(t);
    assert_eq!(
        link.artwork_url.as_deref(),
        Some("https://i1.sndcdn.com/artworks-12345-t500x500.jpg")
    );
}

#[test]
fn track_to_link_upgrades_artwork_without_extension() {
    let mut t = sample_track();
    t.artwork_url = Some("https://i1.sndcdn.com/artworks-12345-large".into());
    let link = track_to_link(t);
    assert_eq!(
        link.artwork_url.as_deref(),
        Some("https://i1.sndcdn.com/artworks-12345-t500x500"),
        "extensionless -large should also be upgraded"
    );
}

#[test]
fn track_to_link_upgrades_artwork_with_query_string() {
    let mut t = sample_track();
    t.artwork_url = Some("https://i1.sndcdn.com/artworks-12345-large?v=2".into());
    let link = track_to_link(t);
    assert_eq!(
        link.artwork_url.as_deref(),
        Some("https://i1.sndcdn.com/artworks-12345-t500x500?v=2"),
        "query string boundary should still trigger upgrade"
    );
}

#[test]
fn track_to_link_does_not_upgrade_large_in_query_string() {
    // A `-large` token inside the query string is metadata, not an
    // artwork suffix: the path itself has the modern `-t500x500`
    // marker and must be left untouched.
    let mut t = sample_track();
    t.artwork_url =
        Some("https://i1.sndcdn.com/artworks-12345-t500x500.jpg?ref=-large-thing".into());
    let link = track_to_link(t);
    assert_eq!(
        link.artwork_url.as_deref(),
        Some("https://i1.sndcdn.com/artworks-12345-t500x500.jpg?ref=-large-thing"),
        "query string `-large` must not be rewritten"
    );
}

#[test]
fn track_to_link_upgrades_large_even_when_query_string_present() {
    // A legitimate `-large` path suffix must still be upgraded
    // when the URL also carries a query string.
    let mut t = sample_track();
    t.artwork_url = Some("https://i1.sndcdn.com/artworks-12345-large.jpg?v=2".into());
    let link = track_to_link(t);
    assert_eq!(
        link.artwork_url.as_deref(),
        Some("https://i1.sndcdn.com/artworks-12345-t500x500.jpg?v=2"),
        "path -large suffix must be rewritten while query string is preserved"
    );
}

#[test]
fn track_to_link_upgrades_trailing_large_when_earlier_large_exists() {
    // A URL that contains `-large` as part of an earlier slug must
    // not cause the upgrade to rewrite the slug: the last one is the
    // size suffix.
    let mut t = sample_track();
    t.artwork_url = Some("https://i1.sndcdn.com/too-large-a-track/artworks-999-large.jpg".into());
    let link = track_to_link(t);
    assert_eq!(
        link.artwork_url.as_deref(),
        Some("https://i1.sndcdn.com/too-large-a-track/artworks-999-t500x500.jpg"),
        "only the trailing -large suffix should be rewritten"
    );
}

#[test]
fn track_to_link_does_not_upgrade_larger_or_largest() {
    let mut t = sample_track();
    t.artwork_url = Some("https://i1.sndcdn.com/artworks-larger.jpg".into());
    let link = track_to_link(t);
    assert_eq!(
        link.artwork_url.as_deref(),
        Some("https://i1.sndcdn.com/artworks-larger.jpg"),
        "-larger must not trigger the word-boundary upgrade"
    );
}

#[test]
fn artwork_edge_cases() {
    assert_eq!(artwork_of("").as_deref(), Some(""));
    assert_eq!(artwork_of("-large").as_deref(), Some("-t500x500"));
    assert_eq!(artwork_of("a-large/b").as_deref(), Some("a-t500x500/b"));
    // The last occurrence decides, even where an earlier one is a marker.
    assert_eq!(
        artwork_of("a-large/b-larger").as_deref(),
        Some("a-large/b-larger")
    );
    // The query and the fragment go with neither the marker nor the upgrade.
    assert_eq!(
        artwork_of("a-large#x-large?y-large").as_deref(),
        Some("a-t500x500#x-large?y-large")
    );
    assert_eq!(
        artwork_of("a?x-large#y-large").as_deref(),
        Some("a?x-large#y-large")
    );
    // A character outside ASCII stands before and behind the marker.
    assert_eq!(
        artwork_of("\u{e9}-large.\u{1d11e}").as_deref(),
        Some("\u{e9}-t500x500.\u{1d11e}")
    );
    assert_eq!(
        artwork_of("a-large\u{0}").as_deref(),
        Some("a-large\u{0}")
    );
}

#[test]
fn link_of_a_bare_track() {
    let mut t = sample_track();
    t.id = None;
    t.permalink_url = None;
    t.artwork_url = None;
    t.user = None;
    t.duration = None;
    let link = track_to_link(t);
    assert_eq!(link.id, "Flickermood");
    assert_eq!(link.url, "");
    assert_eq!(link.artist, None);
    assert_eq!(link.duration_ms, None);
    assert_eq!(link.artwork_url, None);
}

#[test]
fn link_id_prefers_urn_over_id_over_permalink() {
    let mut t = sample_track();
    t.urn = Some("soundcloud:tracks:7".into());
    assert_eq!(stable_track_link_id(&t), "soundcloud:tracks:7");
    t.urn = None;
    assert_eq!(stable_track_link_id(&t), "1");
    t.id = Some(ApiId::Text("x-9".into()));
    assert_eq!(stable_track_link_id(&t), "x-9");
    t.id = None;
    assert_eq!(
        stable_track_link_id(&t),
        "https://soundcloud.com/forss/flickermood"
    );
}

#[test]
fn metadata_artist_goes_before_uploader_unless_blank() {
    let mut t = sample_track();
    t.metadata_artist = Some("Eric Wahlforss".into());
    assert_eq!(track_to_link(t).artist.as_deref(), Some("Eric Wahlforss"));
    let mut t = sample_track();
    t.metadata_artist = Some(" \t\u{3000}".into());
    assert_eq!(track_to_link(t).artist.as_deref(), Some("Forss"));
}

#[test]
fn build_single_track_response_shape() {
    let r = build_single_track_response(sample_track());
    assert_eq!(r.kind, "track");
    assert_eq!(r.title.as_deref(), Some("Flickermood"));
    assert_eq!(r.artist.as_deref(), Some("Forss"));
    assert_eq!(r.tracks.len(), 1);
}

#[test]
fn build_playlist_response_shape() {
    let playlist = Playlist {
        id: Some(ApiId::Numeric(42)),
        urn: None,
        title: "Soulhack".into(),
        permalink_url: Some("https://soundcloud.com/forss/sets/soulhack".into()),
        artwork_url: None,
        tracks: vec![sample_track(), sample_track()],
        track_count: Some(2),
    };
    let r = build_playlist_response(playlist);
    assert_eq!(r.kind, "playlist");
    assert_eq!(r.title.as_deref(), Some("Soulhack"));
    assert_eq!(r.tracks.len(), 2);
}

#[test]
fn playlist_artwork_is_upgraded() {
    let playlist = Playlist {
        id: None,
        urn: None,
        title: "Soulhack".into(),
        permalink_url: None,
        artwork_url: Some("https://i1.sndcdn.com/artworks-9-large.png".into()),
        tracks: vec![],
        track_count: None,
    };
    let r = build_playlist_response(playlist);
    assert_eq!(
        r.artwork_url.as_deref(),
        Some("https://i1.sndcdn.com/artworks-9-t500x500.png")
    );
    assert_eq!(r.artist, None);
    assert!(r.tracks.is_empty());
}

#[test]
fn build_artist_response_shape() {
    let user = User {
        id: Some(ApiId::Numeric(99)),
        urn: None,
        username: "forss".into(),
        permalink_url: Some("https://soundcloud.com/forss".into()),
        avatar_url: Some("https://i1.sndcdn.com/avatars-42.jpg".into()),
    };
    let r = build_artist_response(&user, vec![sample_track()]);
    assert_eq!(r.kind, "artist");
    assert_eq!(r.title.as_deref(), Some("forss"));
    assert_eq!(
        r.artwork_url.as_deref(),
        Some("https://i1.sndcdn.com/avatars-42.jpg")
    );
    assert_eq!(r.tracks.len(), 1);
}

#[test]
fn ensure_soundcloud_url_rejects_unknown() {
    let err = ensure_soundcloud_url("https://example.com/").unwrap_err();
    assert!(matches!(err, PluginError::UnsupportedUrl(_)));
}

#[test]
fn response_to_extract_links_track_ok() {
    let resp = response_to_extract_links(ResolveResponse::Track(sample_track())).unwrap();
    assert_eq!(resp.kind, "track");
}

#[test]
fn response_to_extract_links_user_rejects_artist_profile_until_pagination() {
    let err = response_to_extract_links(ResolveResponse::User(User {
        id: Some(ApiId::Numeric(1)),
        urn: None,
        username: "forss".into(),
        permalink_url: None,
        avatar_url: None,
    }))
    .unwrap_err();
    match err {
        PluginError::UnsupportedUrl(msg) => {
            assert!(
                !msg.contains("extract_playlist"),
                "error message must not suggest extract_playlist"
            );
            assert!(msg.contains("not supported") || msg.contains("not implemented"));
        }
        other => panic!("expected UnsupportedUrl, got {other:?}"),
    }
}

#[test]
fn response_to_extract_links_unknown_rejected() {
    let err = response_to_extract_links(ResolveResponse::Unknown).unwrap_err();
    assert!(matches!(err, PluginError::UnsupportedUrl(_)));
}

#[test]
fn json_serialisation_of_extract_links_response() {
    let resp = build_single_track_response(sample_track());
    let json = resp.to_json().unwrap();
    let parsed: serde_json::Value = serde_json::from_str(&json).unwrap();
    assert_eq!(parsed["kind"], "track");
    assert_eq!(parsed["tracks"][0]["title"], "Flickermood");
    assert_eq!(parsed["tracks"][0]["artist"], "Forss");
}

#[test]
fn answer_in_json_to_the_letter() {
    let mut bare = sample_track();
    bare.id = None;
    bare.permalink_url = None;
    bare.artwork_url = None;
    bare.user = None;
    bare.duration = None;
    bare.title = "\"B\"\n".into();
    let user = User {
        id: None,
        urn: None,
        username: "forss".into(),
        permalink_url: None,
        avatar_url: None,
    };
    let resp = build_artist_response(&user, vec![sample_track(), bare]);
    assert_eq!(
        resp.to_json().unwrap(),
        "{\"kind\":\"artist\",\"title\":\"forss\",\"tracks\":[\
         {\"id\":\"1\",\"title\":\"Flickermood\",\
         \"url\":\"https://soundcloud.com/forss/flickermood\",\"artist\":\"Forss\",\
         \"duration_ms\":225000,\
         \"artwork_url\":\"https://i1.sndcdn.com/artworks-12345-t500x500.jpg\"},\
         {\"id\":\"\\\"B\\\"\\n\",\"title\":\"\\\"B\\\"\\n\",\"url\":\"\",\"artist\":null,\
         \"duration_ms\":null,\"artwork_url\":null}]}"
    );
    let resp = build_artist_response(&user, vec![]);
    assert_eq!(
        resp.to_json().unwrap(),
        "{\"kind\":\"artist\",\"title\":\"forss\",\"tracks\":[]}"
    );
    let resp = build_single_track_response(sample_track());
    assert!(resp.to_json().unwrap().starts_with(
        "{\"kind\":\"track\",\"title\":\"Flickermood\",\"artist\":\"Forss\",\
         \"artwork_url\":\"https://i1.sndcdn.com/artworks-12345-t500x500.jpg\",\"tracks\":[{"
    ));
}
