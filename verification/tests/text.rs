use vortex_mod_soundcloud::error::PluginError;
use vortex_mod_soundcloud::text::{
    decimal_string, has_text, is_ascii_alphanumeric, is_blank, is_white, lowercase_string,
    signed_decimal_string, string_of, trim_chars,
};
use vortex_mod_soundcloud::url_matcher::UrlKind;

fn chars(s: &str) -> Vec<char> {
    s.chars().collect()
}

#[test]
fn white_space_is_that_of_unicode() {
    for c in '\u{0}'..=char::MAX {
        assert_eq!(is_white(c), c.is_whitespace(), "{c:?}");
        assert_eq!(is_ascii_alphanumeric(c), c.is_ascii_alphanumeric(), "{c:?}");
    }
}

#[test]
fn trimming_and_case() {
    for s in ["", " ", "a", " a ", "\u{a0}\u{2003}x y\u{3000}", "\t\r\n", "\u{200b}z"] {
        assert_eq!(string_of(trim_chars(&chars(s))), s.trim());
        assert_eq!(is_blank(s), s.trim().is_empty());
    }
    for s in ["", "AZaz09", "\u{c9}T\u{c9}", "HTTPS", "[@`{"] {
        assert_eq!(lowercase_string(&chars(s)), s.to_ascii_lowercase());
    }
}

#[test]
fn searching() {
    assert!(has_text("abc", ""));
    assert!(has_text("", ""));
    assert!(has_text("abcabd", "abd"));
    assert!(!has_text("abcab", "abd"));
    assert!(!has_text("a", "ab"));
    assert!(has_text("\u{e9}?", "?"));
}

#[test]
fn numbers() {
    for n in [0u64, 9, 10, 99, 100, 1_000_000_007, u64::MAX] {
        assert_eq!(decimal_string(n), n.to_string());
    }
    for n in [0i32, -1, 10, i32::MAX, i32::MIN] {
        assert_eq!(signed_decimal_string(n), n.to_string());
    }
}

#[test]
fn error_messages() {
    let json_error = serde_json::from_str::<serde_json::Value>("not json").unwrap_err();
    let shown = json_error.to_string();
    let cases = vec![
        (
            PluginError::ParseJson("x".into()),
            "SoundCloud JSON parse error: x".to_string(),
        ),
        (PluginError::SerdeJson(json_error), format!("JSON error: {shown}")),
        (
            PluginError::HttpStatus {
                status: 502,
                message: "bad".into(),
            },
            "SoundCloud API returned status 502: bad".to_string(),
        ),
        (
            PluginError::HostResponse("h".into()),
            "host function response invalid: h".to_string(),
        ),
        (
            PluginError::Subprocess {
                exit_code: -11,
                stderr: "e".into(),
            },
            "yt-dlp failed (exit code -11): e".to_string(),
        ),
        (
            PluginError::UnsupportedUrl("u".into()),
            "URL is not a recognised SoundCloud resource: u".to_string(),
        ),
        (
            PluginError::UnsupportedResourceKind {
                kind: UrlKind::Artist,
                url: "u".into(),
            },
            "SoundCloud resource kind Artist is not supported here: u".to_string(),
        ),
        (
            PluginError::Private("status 401".into()),
            "SoundCloud resource is private: status 401".to_string(),
        ),
        (
            PluginError::NoStreamAvailable,
            "no stream available for this SoundCloud track".to_string(),
        ),
        (
            PluginError::AdaptiveStreamOnly,
            "audio is only available as an adaptive stream (HLS/DASH) for this SoundCloud track; \
             use download_to_file"
                .to_string(),
        ),
    ];
    for (error, message) in cases {
        assert_eq!(error.message(), message);
    }
}

#[test]
fn json_errors_convert() {
    let json_error = serde_json::from_str::<serde_json::Value>("{").unwrap_err();
    let shown = json_error.to_string();
    match PluginError::from(json_error) {
        PluginError::SerdeJson(e) => assert_eq!(e.to_string(), shown),
        other => panic!("unexpected {other:?}"),
    }
}
