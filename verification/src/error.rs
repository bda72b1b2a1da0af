//! Plugin error type.

use vstd::prelude::*;
use vstd::string::*;

use crate::text::{decimal, decimal_string, signed_decimal, signed_decimal_string};
use crate::url_matcher::UrlKind;

verus! {

/// Errors raised by the SoundCloud plugin.
#[derive(Debug)]
pub enum PluginError {
    /// SoundCloud API JSON parsing failure with contextual message.
    ParseJson(String),
    /// Direct `serde_json` failure.
    SerdeJson(serde_json::Error),
    /// The `http_request` host function returned a non-2xx status.
    HttpStatus { status: u16, message: String },
    /// A host function returned an invalid response envelope.
    HostResponse(String),
    /// The yt-dlp subprocess returned a non-zero exit code.
    Subprocess { exit_code: i32, stderr: String },
    /// The URL could not be classified as a SoundCloud resource: host not
    /// recognised, malformed path, or not SoundCloud at all.
    UnsupportedUrl(String),
    /// The URL was classified as a SoundCloud resource, but of a kind that
    /// the handler does not support, such as a playlist URL given to
    /// `extract_track`. Carries the detected kind, so that callers can tell
    /// this from a URL that is no SoundCloud URL at all.
    UnsupportedResourceKind { kind: UrlKind, url: String },
    /// SoundCloud denied access to a private resource.
    Private(String),
    /// The resolved track has no playable transcodings.
    NoStreamAvailable,
    /// The resolved track is only available as HLS and must be downloaded
    /// with `download_to_file`.
    AdaptiveStreamOnly,
}

impl From<serde_json::Error> for PluginError {
    fn from(e: serde_json::Error) -> (r: Self) {
        PluginError::SerdeJson(e)
    }
}

impl vstd::std_specs::convert::FromSpecImpl<serde_json::Error> for PluginError {
    open spec fn obeys_from_spec() -> bool {
        true
    }

    open spec fn from_spec(e: serde_json::Error) -> Self {
        PluginError::SerdeJson(e)
    }
}

/// The name of a kind.
pub open spec fn kind_name(kind: UrlKind) -> Seq<char> {
    match kind {
        UrlKind::Track => "Track"@,
        UrlKind::Playlist => "Playlist"@,
        UrlKind::Artist => "Artist"@,
        UrlKind::Unknown => "Unknown"@,
    }
}

/// `text` is the message of `error` for its reader. Where the error is one
/// of `serde_json`, it ends in a text that `serde_json` displays it by.
pub open spec fn is_message(error: PluginError, text: Seq<char>) -> bool {
    match error {
        PluginError::ParseJson(m) => text == "SoundCloud JSON parse error: "@ + m@,
        PluginError::SerdeJson(e) => exists|shown: String|
            {
                &&& #[trigger] to_string_from_display_ensures::<serde_json::Error>(&e, shown)
                &&& text == "JSON error: "@ + shown@
            },
        PluginError::HttpStatus { status, message } => text == "SoundCloud API returned status "@
            + decimal(status as nat) + ": "@ + message@,
        PluginError::HostResponse(m) => text == "host function response invalid: "@ + m@,
        PluginError::Subprocess { exit_code, stderr } => text == "yt-dlp failed (exit code "@
            + signed_decimal(exit_code as int) + "): "@ + stderr@,
        PluginError::UnsupportedUrl(m) => text
            == "URL is not a recognised SoundCloud resource: "@ + m@,
        PluginError::UnsupportedResourceKind { kind, url } => text == "SoundCloud resource kind "@
            + kind_name(kind) + " is not supported here: "@ + url@,
        PluginError::Private(m) => text == "SoundCloud resource is private: "@ + m@,
        PluginError::NoStreamAvailable => text
            == "no stream available for this SoundCloud track"@,
        PluginError::AdaptiveStreamOnly => text
            == "audio is only available as an adaptive stream (HLS/DASH) for this SoundCloud track; use download_to_file"@,
    }
}

/// A message starts with the words for its error and ends with what the error
/// carries, unchanged; numbers stand in decimal, and kinds by their names.
pub proof fn law_message_tells_its_error(error: PluginError, text: Seq<char>)
    requires
        is_message(error, text),
    ensures
        match error {
            PluginError::ParseJson(m) => text == "SoundCloud JSON parse error: "@ + m@,
            PluginError::SerdeJson(_) => "JSON error: "@.is_prefix_of(text),
            PluginError::HttpStatus { status, message } => {
                &&& "SoundCloud API returned status "@.is_prefix_of(text)
                &&& (decimal(status as nat) + ": "@ + message@).is_suffix_of(text)
                &&& text.len() == "SoundCloud API returned status "@.len() + decimal(
                    status as nat,
                ).len() + ": "@.len() + message@.len()
            },
            PluginError::HostResponse(m) => text == "host function response invalid: "@ + m@,
            PluginError::Subprocess { exit_code, stderr } => {
                &&& "yt-dlp failed (exit code "@.is_prefix_of(text)
                &&& (signed_decimal(exit_code as int) + "): "@ + stderr@).is_suffix_of(text)
                &&& text.len() == "yt-dlp failed (exit code "@.len() + signed_decimal(
                    exit_code as int,
                ).len() + "): "@.len() + stderr@.len()
            },
            PluginError::UnsupportedUrl(m) => text
                == "URL is not a recognised SoundCloud resource: "@ + m@,
            PluginError::UnsupportedResourceKind { kind, url } => {
                let name = match kind {
                    UrlKind::Track => "Track"@,
                    UrlKind::Playlist => "Playlist"@,
                    UrlKind::Artist => "Artist"@,
                    UrlKind::Unknown => "Unknown"@,
                };
                &&& "SoundCloud resource kind "@.is_prefix_of(text)
                &&& (name + " is not supported here: "@ + url@).is_suffix_of(text)
                &&& text.len() == "SoundCloud resource kind "@.len() + name.len()
                    + " is not supported here: "@.len() + url@.len()
            },
            PluginError::Private(m) => text == "SoundCloud resource is private: "@ + m@,
            PluginError::NoStreamAvailable => text
                == "no stream available for this SoundCloud track"@,
            PluginError::AdaptiveStreamOnly => text
                == "audio is only available as an adaptive stream (HLS/DASH) for this SoundCloud track; use download_to_file"@,
        },
{
    match error {
        PluginError::SerdeJson(_) => {
            assert("JSON error: "@ =~= text.take("JSON error: "@.len() as int));
        },
        PluginError::HttpStatus { status, message } => {
            let front = "SoundCloud API returned status "@;
            let rear = decimal(status as nat) + ": "@ + message@;
            assert(text =~= front + rear);
            lemma_front_and_rear(front, rear);
        },
        PluginError::Subprocess { exit_code, stderr } => {
            let front = "yt-dlp failed (exit code "@;
            let rear = signed_decimal(exit_code as int) + "): "@ + stderr@;
            assert(text =~= front + rear);
            lemma_front_and_rear(front, rear);
        },
        PluginError::UnsupportedResourceKind { kind, url } => {
            let front = "SoundCloud resource kind "@;
            let rear = kind_name(kind) + " is not supported here: "@ + url@;
            assert(text =~= front + rear);
            lemma_front_and_rear(front, rear);
        },
        _ => {},
    }
}

/// Two texts set together start with the one and end with the other.
proof fn lemma_front_and_rear(front: Seq<char>, rear: Seq<char>)
    ensures
        front.is_prefix_of(front + rear),
        rear.is_suffix_of(front + rear),
{
    let text = front + rear;
    assert(front =~= text.take(front.len() as int));
    assert(rear =~= text.subrange(text.len() - rear.len(), text.len() as int));
}

impl PluginError {
    /// The message for a reader of the error.
    pub fn message(&self) -> (r: String)
        ensures
            is_message(*self, r@),
    {
        match self {
            PluginError::ParseJson(m) => "SoundCloud JSON parse error: ".to_owned().concat(
                m.as_str(),
            ),
            PluginError::SerdeJson(e) => {
                let shown = e.to_string();
                "JSON error: ".to_owned().concat(shown.as_str())
            },
            PluginError::HttpStatus { status, message } => {
                let code = decimal_string(*status as u64);
                "SoundCloud API returned status ".to_owned().concat(code.as_str()).concat(
                    ": ",
                ).concat(message.as_str())
            },
            PluginError::HostResponse(m) => "host function response invalid: ".to_owned().concat(
                m.as_str(),
            ),
            PluginError::Subprocess { exit_code, stderr } => {
                let code = signed_decimal_string(*exit_code);
                "yt-dlp failed (exit code ".to_owned().concat(code.as_str()).concat("): ").concat(
                    stderr.as_str(),
                )
            },
            PluginError::UnsupportedUrl(
                m,
            ) => "URL is not a recognised SoundCloud resource: ".to_owned().concat(m.as_str()),
            PluginError::UnsupportedResourceKind { kind, url } => {
                let name = match kind {
                    UrlKind::Track => "Track",
                    UrlKind::Playlist => "Playlist",
                    UrlKind::Artist => "Artist",
                    UrlKind::Unknown => "Unknown",
                };
                "SoundCloud resource kind ".to_owned().concat(name).concat(
                    " is not supported here: ",
                ).concat(url.as_str())
            },
            PluginError::Private(m) => "SoundCloud resource is private: ".to_owned().concat(
                m.as_str(),
            ),
            PluginError::NoStreamAvailable => "no stream available for this SoundCloud track".to_owned(),
            PluginError::AdaptiveStreamOnly =>
                "audio is only available as an adaptive stream (HLS/DASH) for this SoundCloud track; use download_to_file".to_owned(),
        }
    }
}

} // verus!
