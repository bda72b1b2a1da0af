use vortex_mod_soundcloud::error::PluginError;
use vortex_mod_soundcloud::extractor::{
    build_ytdlp_download_request, normalize_audio_format, parse_download_path_from_stdout,
    YtDlpRequest, YtDlpResponse,
};

#[test]
fn normalize_audio_format_maps_ogg_to_vorbis() {
    assert_eq!(normalize_audio_format("ogg"), "vorbis");
    assert_eq!(normalize_audio_format("aac"), "m4a");
    assert_eq!(normalize_audio_format("garbage"), "mp3");
}

#[test]
fn known_formats_stay() {
    for format in ["best", "flac", "m4a", "mp3", "opus", "vorbis", "wav"] {
        assert_eq!(normalize_audio_format(format), format);
    }
    assert_eq!(normalize_audio_format(""), "mp3");
    assert_eq!(normalize_audio_format("MP3"), "mp3");
    assert_eq!(normalize_audio_format("Flac"), "mp3");
}

#[test]
fn parse_download_path_uses_last_non_empty_line() {
    let stdout = "\n[download] done\n/tmp/out.mp3\n";
    assert_eq!(
        parse_download_path_from_stdout(stdout).unwrap(),
        "/tmp/out.mp3"
    );
}

#[test]
fn download_path_edge_cases() {
    assert_eq!(parse_download_path_from_stdout("a\r\n \t\r\n").unwrap(), "a");
    assert_eq!(
        parse_download_path_from_stdout("  /tmp/a b \u{a0}").unwrap(),
        "/tmp/a b"
    );
    for stdout in ["", "\n", " \n\t\r\n\u{2003}"] {
        assert!(matches!(
            parse_download_path_from_stdout(stdout).unwrap_err(),
            PluginError::NoStreamAvailable
        ));
    }
}

#[test]
fn failed_process_is_an_error_with_its_output() {
    let ok = YtDlpResponse {
        exit_code: 0,
        stdout: "out".into(),
        stderr: "noise".into(),
    };
    assert_eq!(ok.into_stdout().unwrap(), "out");
    let failed = YtDlpResponse {
        exit_code: -2,
        stdout: "out".into(),
        stderr: format!("  {}\n", "\u{e9}".repeat(513)),
    };
    match failed.into_stdout().unwrap_err() {
        PluginError::Subprocess { exit_code, stderr } => {
            assert_eq!(exit_code, -2);
            assert_eq!(stderr, format!("{}\u{2026}", "\u{e9}".repeat(512)));
        }
        other => panic!("unexpected {other:?}"),
    }
    let failed = YtDlpResponse {
        exit_code: 1,
        stdout: String::new(),
        stderr: format!("\t{} ", "x".repeat(512)),
    };
    match failed.into_stdout().unwrap_err() {
        PluginError::Subprocess { stderr, .. } => assert_eq!(stderr, "x".repeat(512)),
        other => panic!("unexpected {other:?}"),
    }
}

#[test]
fn download_request_serializes_only_typed_fields() {
    let request = build_ytdlp_download_request(
        "https://soundcloud.com/forss/flickermood",
        "mp3",
        "/tmp/100%done",
    );
    let value: serde_json::Value = serde_json::from_str(&request.to_json().unwrap()).unwrap();

    let object = value.as_object().unwrap();
    assert_eq!(object.len(), 6);
    assert_eq!(object["action"], "download");
    assert_eq!(object["url"], "https://soundcloud.com/forss/flickermood");
    assert_eq!(object["quality"], serde_json::Value::Null);
    assert_eq!(object["format"], "mp3");
    assert_eq!(object["output_dir"], "/tmp/100%done");
    assert_eq!(object["audio_only"], true);
}

#[test]
fn download_request_defaults_unknown_format_to_mp3() {
    let request = build_ytdlp_download_request(
        "https://soundcloud.com/forss/flickermood",
        "unknown",
        "/tmp/vx",
    );
    let value: serde_json::Value = serde_json::from_str(&request.to_json().unwrap()).unwrap();

    assert_eq!(value["format"], "mp3");
}

#[test]
fn broker_request_in_json_to_the_letter() {
    let request = YtDlpRequest::Download {
        url: "u\"".into(),
        quality: Some(4_294_967_295),
        format: None,
        output_dir: "C:\\d".into(),
        audio_only: false,
    };
    assert_eq!(
        request.to_json().unwrap(),
        "{\"action\":\"download\",\"url\":\"u\\\"\",\"quality\":4294967295,\"format\":null,\
         \"output_dir\":\"C:\\\\d\",\"audio_only\":false}"
    );
}
