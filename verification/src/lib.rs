//! SoundCloud plugin logic for the Vortex download host.
//!
//! The plugin answers whether it handles a URL, and turns a SoundCloud URL
//! into the tracks behind it. All network access goes through the host:
//! [`plugin_api`] says which host function to call next and what to do with
//! the reply.

use vstd::prelude::*;
use vstd::slice::slice_subrange;
use vstd::string::*;

pub mod api;
pub mod artist;
pub mod client_id;
pub mod encoding;
pub mod error;
pub mod extractor;
pub mod json;
pub mod laws;
pub mod output;
pub mod plugin_api;
pub mod text;
pub mod url_matcher;

use crate::api::{resource_id, track_resource_id, Playlist, ResolveResponse, Track, User};
use crate::error::PluginError;
use crate::text::{
    before_first, blank, chars_of, first_or_end, is_blank, lemma_rfind_upto, occurs_at, opt_text,
    rfind, rfind_chars, string_of, white,
};
use crate::url_matcher::{classify_url, kind_of, UrlKind};

verus! {

// ── IPC DTOs ──────────────────────────────────────────────────────────────────

/// What `extract_links` answers: the resolved media resource.
#[derive(Debug, PartialEq, Eq)]
pub struct ExtractLinksResponse {
    pub kind: &'static str,
    pub title: Option<String>,
    pub artist: Option<String>,
    pub artwork_url: Option<String>,
    pub tracks: Vec<MediaLink>,
}

/// A single resolved SoundCloud track entry.
#[derive(Debug, PartialEq, Eq)]
pub struct MediaLink {
    pub id: String,
    pub title: String,
    pub url: String,
    pub artist: Option<String>,
    pub duration_ms: Option<u64>,
    pub artwork_url: Option<String>,
}

/// What a [`MediaLink`] says.
#[verifier::ext_equal]
pub struct LinkModel {
    pub id: Seq<char>,
    pub title: Seq<char>,
    pub url: Seq<char>,
    pub artist: Option<Seq<char>>,
    pub duration_ms: Option<u64>,
    pub artwork_url: Option<Seq<char>>,
}

impl View for MediaLink {
    type V = LinkModel;

    open spec fn view(&self) -> LinkModel {
        LinkModel {
            id: self.id@,
            title: self.title@,
            url: self.url@,
            artist: opt_text(self.artist),
            duration_ms: self.duration_ms,
            artwork_url: opt_text(self.artwork_url),
        }
    }
}

/// What an [`ExtractLinksResponse`] says.
#[verifier::ext_equal]
pub struct ResponseModel {
    pub kind: Seq<char>,
    pub title: Option<Seq<char>>,
    pub artist: Option<Seq<char>>,
    pub artwork_url: Option<Seq<char>>,
    pub tracks: Seq<LinkModel>,
}

impl View for ExtractLinksResponse {
    type V = ResponseModel;

    open spec fn view(&self) -> ResponseModel {
        ResponseModel {
            kind: self.kind@,
            title: opt_text(self.title),
            artist: opt_text(self.artist),
            artwork_url: opt_text(self.artwork_url),
            tracks: self.tracks@.map_values(|link: MediaLink| link@),
        }
    }
}

// ── Routing ───────────────────────────────────────────────────────────────────

/// A flag as the host reads it.
pub open spec fn flag_text(b: bool) -> Seq<char> {
    if b {
        "true"@
    } else {
        "false"@
    }
}

/// What the host is told of a URL: whether it can be handled.
pub open spec fn can_handle_text(url: Seq<char>) -> Seq<char> {
    flag_text(kind_of(url) != UrlKind::Unknown)
}

/// What the host is told of a URL: whether it is a collection.
pub open spec fn supports_playlist_text(url: Seq<char>) -> Seq<char> {
    flag_text(kind_of(url) == UrlKind::Playlist || kind_of(url) == UrlKind::Artist)
}

/// A track, a playlist and an artist can be handled, and nothing else; a
/// playlist and an artist are collections, and nothing else is.
pub proof fn law_routing_by_kind(url: Seq<char>)
    ensures
        kind_of(url) == UrlKind::Track ==> can_handle_text(url) == "true"@
            && supports_playlist_text(url) == "false"@,
        kind_of(url) == UrlKind::Playlist ==> can_handle_text(url) == "true"@
            && supports_playlist_text(url) == "true"@,
        kind_of(url) == UrlKind::Artist ==> can_handle_text(url) == "true"@
            && supports_playlist_text(url) == "true"@,
        kind_of(url) == UrlKind::Unknown ==> can_handle_text(url) == "false"@
            && supports_playlist_text(url) == "false"@,
{
}

/// Returns `"true"` if the URL is any form of recognised SoundCloud resource.
pub fn handle_can_handle(url: &str) -> (r: String)
    ensures
        r@ == flag_text(kind_of(url@) != UrlKind::Unknown),
        r@ == can_handle_text(url@),
{
    let kind = classify_url(url);
    bool_to_string(
        match kind {
            UrlKind::Track | UrlKind::Playlist | UrlKind::Artist => true,
            UrlKind::Unknown => false,
        },
    )
}

/// Returns `"true"` only if the URL refers to a collection resource.
pub fn handle_supports_playlist(url: &str) -> (r: String)
    ensures
        r@ == flag_text(kind_of(url@) == UrlKind::Playlist || kind_of(url@) == UrlKind::Artist),
        r@ == supports_playlist_text(url@),
{
    let kind = classify_url(url);
    bool_to_string(
        match kind {
            UrlKind::Playlist | UrlKind::Artist => true,
            UrlKind::Track | UrlKind::Unknown => false,
        },
    )
}

fn bool_to_string(b: bool) -> (r: String)
    ensures
        r@ == flag_text(b),
{
    if b {
        "true".to_owned()
    } else {
        "false".to_owned()
    }
}

/// Reject URLs that are not a supported SoundCloud resource.
pub fn ensure_soundcloud_url(url: &str) -> (r: Result<UrlKind, PluginError>)
    ensures
        match kind_of(url@) {
            UrlKind::Unknown => r matches Err(PluginError::UnsupportedUrl(u)) && u@ == url@,
            kind => r == Ok::<UrlKind, PluginError>(kind),
        },
{
    let kind = classify_url(url);
    match kind {
        UrlKind::Track | UrlKind::Playlist | UrlKind::Artist => Ok(kind),
        UrlKind::Unknown => Err(PluginError::UnsupportedUrl(url.to_owned())),
    }
}

/// Reject URLs that are not a track.
pub fn ensure_track(url: &str) -> (r: Result<(), PluginError>)
    ensures
        match kind_of(url@) {
            UrlKind::Track => r is Ok,
            UrlKind::Unknown => r matches Err(PluginError::UnsupportedUrl(u)) && u@ == url@,
            kind => r matches Err(PluginError::UnsupportedResourceKind { kind: k, url: u }) && k
                == kind && u@ == url@,
        },
{
    let kind = classify_url(url);
    match kind {
        UrlKind::Track => Ok(()),
        UrlKind::Playlist | UrlKind::Artist => Err(
            PluginError::UnsupportedResourceKind { kind, url: url.to_owned() },
        ),
        UrlKind::Unknown => Err(PluginError::UnsupportedUrl(url.to_owned())),
    }
}

/// Reject URLs that are not a collection: a playlist or an artist profile.
pub fn ensure_playlist(url: &str) -> (r: Result<(), PluginError>)
    ensures
        match kind_of(url@) {
            UrlKind::Playlist | UrlKind::Artist => r is Ok,
            UrlKind::Unknown => r matches Err(PluginError::UnsupportedUrl(u)) && u@ == url@,
            UrlKind::Track => r matches Err(
                PluginError::UnsupportedResourceKind { kind: k, url: u },
            ) && k == UrlKind::Track && u@ == url@,
        },
{
    let kind = classify_url(url);
    match kind {
        UrlKind::Playlist | UrlKind::Artist => Ok(()),
        UrlKind::Track => Err(
            PluginError::UnsupportedResourceKind { kind, url: url.to_owned() },
        ),
        UrlKind::Unknown => Err(PluginError::UnsupportedUrl(url.to_owned())),
    }
}

// ── Tracks ────────────────────────────────────────────────────────────────────

/// What tells a track from others: its identifier, or else its permalink, or
/// else its title.
pub open spec fn track_key(track: Track) -> Seq<char> {
    match (resource_id(track.urn, track.id), track.permalink_url) {
        (Some(id), _) => id,
        (None, Some(permalink)) => permalink@,
        (None, None) => track.title@,
    }
}

/// Who made a track: the artist in its metadata unless that is blank, or else
/// the user that uploaded it.
pub open spec fn track_artist(track: Track) -> Option<Seq<char>> {
    match (track.metadata_artist, track.user) {
        (Some(artist), user) if !blank(artist@) => Some(artist@),
        (_, Some(user)) => Some(user.username@),
        (_, None) => None,
    }
}

/// The link for a track.
pub open spec fn link_of(track: Track) -> LinkModel {
    LinkModel {
        id: track_key(track),
        title: track.title@,
        url: match track.permalink_url {
            Some(url) => url@,
            None => Seq::empty(),
        },
        artist: track_artist(track),
        duration_ms: track.duration,
        artwork_url: upgraded_artwork(opt_text(track.artwork_url)),
    }
}

/// The links for tracks, in order.
pub open spec fn links_of(tracks: Seq<Track>) -> Seq<LinkModel> {
    tracks.map_values(|track: Track| link_of(track))
}

/// A track is told from others by its URN, or else by its id, or else by its
/// permalink, or else by its title, each as it stands.
pub proof fn law_track_is_known_by(track: Track)
    ensures
        track.urn matches Some(urn) ==> track_key(track) == urn@,
        track.urn is None ==> (track.id matches Some(id) ==> track_key(track) == id.text()),
        track.urn is None && track.id is None ==> (track.permalink_url matches Some(url)
            ==> track_key(track) == url@),
        track.urn is None && track.id is None && track.permalink_url is None ==> track_key(track)
            == track.title@,
{
}

/// A link tells what its track says: the title, the duration and the
/// permalink; the URN, or else the id, or else the permalink, or else the
/// title for its id; the artist in the metadata unless that is blank, or else
/// the uploader; and the artwork in the larger size.
pub proof fn law_link_tells_its_track(link: MediaLink, track: Track)
    requires
        link@ == link_of(track),
    ensures
        ({
            &&& link.title@ == track.title@
            &&& link.duration_ms == track.duration
            &&& track.permalink_url matches Some(u) ==> link.url@ == u@
            &&& track.permalink_url is None ==> link.url@.len() == 0
            &&& track.urn matches Some(urn) ==> link.id@ == urn@
            &&& track.urn is None && track.id is Some ==> link.id@ == track.id->0.text()
            &&& track.urn is None && track.id is None && track.permalink_url is Some ==> link.id@
                == track.permalink_url->0@
            &&& track.urn is None && track.id is None && track.permalink_url is None ==> link.id@
                == track.title@
            &&& track.artwork_url matches Some(u) ==> (link.artwork_url matches Some(a) && a@
                == large_artwork(u@))
            &&& track.artwork_url is None ==> link.artwork_url is None
            &&& (track.metadata_artist matches Some(m) && exists|i: int|
                0 <= i < m@.len() && !white(#[trigger] m@[i])) ==> (link.artist matches Some(a) && a@
                == track.metadata_artist->0@)
            &&& !(track.metadata_artist matches Some(m) && exists|i: int|
                0 <= i < m@.len() && !white(#[trigger] m@[i])) ==> match track.user {
                Some(user) => link.artist matches Some(a) && a@ == user.username@,
                None => link.artist is None,
            }
        }),
{
    assert(link@.artist == opt_text(link.artist));
    assert(link@.artwork_url == opt_text(link.artwork_url));
}

/// Convert an API [`Track`] into a [`MediaLink`], with the artwork upgraded
/// from the default thumbnail to `t500x500` if possible.
pub fn track_to_link(track: Track) -> (r: MediaLink)
    ensures
        r@ == link_of(track),
        r.title@ == track.title@,
        r.duration_ms == track.duration,
{
    link_to_track(&track)
}

/// The link for a track.
fn link_to_track(track: &Track) -> (r: MediaLink)
    ensures
        r@ == link_of(*track),
{
    MediaLink {
        id: stable_track_link_id(track),
        title: track.title.clone(),
        url: match &track.permalink_url {
            Some(url) => url.clone(),
            None => String::new(),
        },
        artist: preferred_track_artist(track),
        duration_ms: track.duration,
        artwork_url: upgrade_optional(&track.artwork_url),
    }
}

/// What tells a track from others.
pub fn stable_track_link_id(track: &Track) -> (r: String)
    ensures
        r@ == track_key(*track),
{
    match track_resource_id(track) {
        Some(id) => id,
        None => match &track.permalink_url {
            Some(url) => url.clone(),
            None => track.title.clone(),
        },
    }
}

/// Who made a track.
fn preferred_track_artist(track: &Track) -> (r: Option<String>)
    ensures
        opt_text(r) == track_artist(*track),
{
    if let Some(artist) = &track.metadata_artist {
        if !is_blank(artist.as_str()) {
            return Some(artist.clone());
        }
    }
    match &track.user {
        Some(user) => Some(user.username.clone()),
        None => None,
    }
}

/// The links for tracks, in order.
fn links_to_tracks(tracks: &Vec<Track>) -> (r: Vec<MediaLink>)
    ensures
        r@.map_values(|link: MediaLink| link@) == links_of(tracks@),
        r@.len() == tracks@.len(),
        forall|k: int| 0 <= k < r@.len() ==> (#[trigger] r@[k])@ == link_of(tracks@[k]),
{
    let mut out: Vec<MediaLink> = Vec::new();
    let mut i: usize = 0;
    while i < tracks.len()
        invariant
            i <= tracks.len(),
            out.len() == i,
            forall|k: int| 0 <= k < i ==> (#[trigger] out@[k])@ == link_of(tracks@[k]),
        decreases tracks.len() - i,
    {
        out.push(link_to_track(&tracks[i]));
        i = i + 1;
    }
    assert(out@.map_values(|link: MediaLink| link@) =~= links_of(tracks@));
    out
}

// ── Artwork ───────────────────────────────────────────────────────────────────

/// The part of a URL before its query and fragment.
pub open spec fn url_path(url: Seq<char>) -> Seq<char> {
    before_first(before_first(url, '#'), '?')
}

/// The size marker ends at `end`: the path ends there, or goes on with a file
/// extension or a further segment.
pub open spec fn marker_ends(path: Seq<char>, end: int) -> bool {
    end == path.len() || path[end] == '.' || path[end] == '/'
}

/// An artwork URL in the larger size: the last `-large` of its path becomes
/// `-t500x500`, where it is a marker and not the start of a longer word.
pub open spec fn large_artwork(url: Seq<char>) -> Seq<char> {
    let path = url_path(url);
    match rfind(path, "-large"@) {
        Some(i) => {
            let end = i + "-large"@.len();
            if marker_ends(path, end) {
                path.take(i) + "-t500x500"@ + path.skip(end) + url.skip(path.len() as int)
            } else {
                url
            }
        },
        None => url,
    }
}

/// An artwork URL, where there is one, in the larger size.
pub open spec fn upgraded_artwork(url: Option<Seq<char>>) -> Option<Seq<char>> {
    match url {
        Some(url) => Some(large_artwork(url)),
        None => None,
    }
}

/// Query and fragment play no part: they neither trigger the upgrade nor are
/// they touched by it.
pub proof fn law_artwork_query_is_untouched(path: Seq<char>, mark: char, rest: Seq<char>)
    requires
        mark == '?' || mark == '#',
        !path.contains('?'),
        !path.contains('#'),
    ensures
        large_artwork(path + seq![mark] + rest) == large_artwork(path) + (seq![mark] + rest),
{
    let suffix = seq![mark] + rest;
    let url = path + seq![mark] + rest;
    assert(url =~= path + suffix);
    url_matcher::lemma_path_before_marks(path, rest, mark);
    assert(url_path(url) == path);
    assert(url_path(path) == path);
    assert(url.skip(path.len() as int) =~= suffix);
    assert(path.skip(path.len() as int) =~= Seq::<char>::empty());
    assert(large_artwork(url) =~= large_artwork(path) + suffix);
}

/// The last `-large` of the path is replaced where it is a marker, and
/// everything else stays.
pub proof fn law_artwork_marker_is_replaced(head: Seq<char>, tail: Seq<char>, suffix: Seq<char>)
    requires
        tail.len() > 0 ==> tail[0] == '.' || tail[0] == '/',
        suffix.len() > 0 ==> suffix[0] == '?' || suffix[0] == '#',
        !(head + tail).contains('?'),
        !(head + tail).contains('#'),
        !text::contains_text(tail, "-large"@),
    ensures
        large_artwork(head + "-large"@ + tail + suffix) == head + "-t500x500"@ + tail + suffix,
{
    reveal_strlit("-large");
    lemma_last_marker(head, tail, suffix);
    let path = head + "-large"@ + tail;
    let url = path + suffix;
    let at = head.len() as int;
    assert(path.take(at) =~= head);
    assert(path.skip(at + 6) =~= tail);
    assert(url.skip(path.len() as int) =~= suffix);
    assert(tail.len() > 0 ==> path[at + 6] == tail[0]);
}

/// Where the last `-large` of the path is the start of a longer word, the URL
/// stays as it is, whatever stands before.
pub proof fn law_artwork_longer_word_is_kept(head: Seq<char>, tail: Seq<char>, suffix: Seq<char>)
    requires
        tail.len() > 0,
        tail[0] != '.' && tail[0] != '/',
        suffix.len() > 0 ==> suffix[0] == '?' || suffix[0] == '#',
        !(head + tail).contains('?'),
        !(head + tail).contains('#'),
        !text::contains_text(tail, "-large"@),
    ensures
        large_artwork(head + "-large"@ + tail + suffix) == head + "-large"@ + tail + suffix,
{
    reveal_strlit("-large");
    lemma_last_marker(head, tail, suffix);
    let path = head + "-large"@ + tail;
    assert(path[head.len() as int + 6] == tail[0]);
}

/// A URL whose path has no `-large` stays as it is.
pub proof fn law_artwork_without_large_is_kept(path: Seq<char>, suffix: Seq<char>)
    requires
        suffix.len() > 0 ==> suffix[0] == '?' || suffix[0] == '#',
        !path.contains('?'),
        !path.contains('#'),
        !text::contains_text(path, "-large"@),
    ensures
        large_artwork(path + suffix) == path + suffix,
{
    lemma_path_before_suffix(path, suffix);
    lemma_rfind_upto(path, "-large"@, path.len() - "-large"@.len());
}

/// A URL whose path has no marker stays as it is.
pub proof fn law_artwork_without_marker_is_kept(url: Seq<char>)
    requires
        forall|i: int|
            #![trigger occurs_at(url_path(url), "-large"@, i)]
            occurs_at(url_path(url), "-large"@, i) ==> !marker_ends(
                url_path(url),
                i + "-large"@.len(),
            ),
    ensures
        large_artwork(url) == url,
{
    let path = url_path(url);
    lemma_rfind_upto(path, "-large"@, path.len() - "-large"@.len());
}

/// The path of a URL is what stands before its query and fragment.
proof fn lemma_path_before_suffix(path: Seq<char>, suffix: Seq<char>)
    requires
        suffix.len() > 0 ==> suffix[0] == '?' || suffix[0] == '#',
        !path.contains('?'),
        !path.contains('#'),
    ensures
        url_path(path + suffix) == path,
{
    if suffix.len() == 0 {
        assert(path + suffix =~= path);
        url_matcher::lemma_path_before_marks(path, Seq::empty(), '?');
    } else {
        assert(path + suffix =~= path + seq![suffix[0]] + suffix.skip(1));
        url_matcher::lemma_path_before_marks(path, suffix.skip(1), suffix[0]);
    }
}

/// The last marker of a path is the one with none behind it.
proof fn lemma_last_marker(head: Seq<char>, tail: Seq<char>, suffix: Seq<char>)
    requires
        suffix.len() > 0 ==> suffix[0] == '?' || suffix[0] == '#',
        !(head + tail).contains('?'),
        !(head + tail).contains('#'),
        !text::contains_text(tail, "-large"@),
    ensures
        url_path(head + "-large"@ + tail + suffix) == head + "-large"@ + tail,
        rfind(head + "-large"@ + tail, "-large"@) == Some(head.len() as int),
{
    reveal_strlit("-large");
    let marker = "-large"@;
    let path = head + marker + tail;
    assert forall|c: char| c == '?' || c == '#' implies !path.contains(c) by {
        if path.contains(c) {
            let k = choose|k: int| 0 <= k < path.len() && path[k] == c;
            if k < head.len() {
                assert((head + tail)[k] == c);
            } else if k >= head.len() + 6 {
                assert((head + tail)[k - 6] == c);
            } else {
                assert(k == head.len() || k == head.len() + 1 || k == head.len() + 2 || k
                    == head.len() + 3 || k == head.len() + 4 || k == head.len() + 5);
            }
        }
    }
    lemma_path_before_suffix(path, suffix);
    let at = head.len() as int;
    lemma_rfind_upto(path, marker, path.len() - marker.len());
    assert(path.subrange(at, at + 6) =~= marker);
    assert(occurs_at(path, marker, at));
    let i = rfind(path, marker)->0;
    if i > at {
        let found = path.subrange(i, i + 6);
        assert(found[0] == path[i]);
        if i < at + 6 {
            assert(path[i] == marker[i - at]);
            assert(i == at + 1 || i == at + 2 || i == at + 3 || i == at + 4 || i == at + 5);
        } else {
            assert(tail.subrange(i - at - 6, i - at) =~= found);
            assert(occurs_at(tail, marker, i - at - 6));
        }
    }
}

/// The upgrade of an artwork URL, where there is one.
fn upgrade_optional(url: &Option<String>) -> (r: Option<String>)
    ensures
        opt_text(r) == upgraded_artwork(opt_text(*url)),
{
    match url {
        Some(url) => Some(upgrade_artwork(url.as_str())),
        None => None,
    }
}

/// SoundCloud hands out small artwork URLs by default. The CDN serves a
/// higher resolution where the `-large` marker is replaced by `-t500x500`.
/// Two shapes occur: `artworks-000-large.jpg`, and `artworks-000-large`
/// without a file extension.
///
/// Only the path is looked at, and only its last `-large`: a query, a
/// fragment or the slug of a track may hold the same text. A longer word such
/// as `-larger` is no marker.
fn upgrade_artwork(url: &str) -> (r: String)
    ensures
        r@ == large_artwork(url@),
{
    let (path, suffix) = split_url_suffix(url);
    let cs = chars_of(path);
    let marker = chars_of("-large");
    proof {
        lemma_rfind_upto(path@, "-large"@, path@.len() - "-large"@.len());
    }
    match rfind_chars(cs.as_slice(), marker.as_slice()) {
        Some(i) => {
            assert(i + marker.len() <= cs.len());
            let end = i + marker.len();
            if end == cs.len() || cs[end] == '.' || cs[end] == '/' {
                let head = string_of(slice_subrange(cs.as_slice(), 0, i));
                let tail = string_of(slice_subrange(cs.as_slice(), end, cs.len()));
                assert(head@ =~= path@.take(i as int));
                assert(tail@ =~= path@.skip(end as int));
                return head.concat("-t500x500").concat(tail.as_str()).concat(suffix);
            }
            url.to_owned()
        },
        None => url.to_owned(),
    }
}

/// Split a URL into its path and what follows it, query and fragment with
/// their leading `?` or `#`.
fn split_url_suffix(url: &str) -> (r: (&str, &str))
    ensures
        r.0@ == url_path(url@),
        r.1@ == url@.skip(url_path(url@).len() as int),
{
    let cs = chars_of(url);
    let frag = first_or_end(cs.as_slice(), '#');
    let no_frag = slice_subrange(cs.as_slice(), 0, frag);
    assert(no_frag@ =~= before_first(url@, '#'));
    let cut = first_or_end(no_frag, '?');
    assert(url@.subrange(0, cut as int) =~= no_frag@.take(cut as int));
    assert(url@.subrange(cut as int, url@.len() as int) =~= url@.skip(cut as int));
    (url.substring_char(0, cut), url.substring_char(cut, cs.len()))
}

// ── Responses ─────────────────────────────────────────────────────────────────

/// The answer for a single track.
pub open spec fn single_track_response(track: Track) -> ResponseModel {
    ResponseModel {
        kind: "track"@,
        title: Some(track.title@),
        artist: track_artist(track),
        artwork_url: upgraded_artwork(opt_text(track.artwork_url)),
        tracks: seq![link_of(track)],
    }
}

/// The answer for a playlist.
pub open spec fn playlist_response(playlist: Playlist) -> ResponseModel {
    ResponseModel {
        kind: "playlist"@,
        title: Some(playlist.title@),
        artist: None,
        artwork_url: upgraded_artwork(opt_text(playlist.artwork_url)),
        tracks: links_of(playlist.tracks@),
    }
}

/// The answer for an artist profile with the given tracks.
pub open spec fn artist_response(user: User, tracks: Seq<Track>) -> ResponseModel {
    ResponseModel {
        kind: "artist"@,
        title: Some(user.username@),
        artist: None,
        artwork_url: opt_text(user.avatar_url),
        tracks: links_of(tracks),
    }
}

/// The answer for a single track.
pub fn build_single_track_response(track: Track) -> (r: ExtractLinksResponse)
    ensures
        r@ == single_track_response(track),
        r.kind@ == "track"@,
        r.tracks@.len() == 1,
        r.tracks@[0]@ == link_of(track),
{
    let title = track.title.clone();
    let artist = preferred_track_artist(&track);
    let artwork_url = upgrade_optional(&track.artwork_url);
    let mut tracks: Vec<MediaLink> = Vec::new();
    tracks.push(track_to_link(track));
    let r = ExtractLinksResponse { kind: "track", title: Some(title), artist, artwork_url, tracks };
    assert(r@.tracks =~= seq![link_of(track)]);
    r
}

/// The answer for a playlist.
pub fn build_playlist_response(playlist: Playlist) -> (r: ExtractLinksResponse)
    ensures
        r@ == playlist_response(playlist),
        r.kind@ == "playlist"@,
        r.tracks@.len() == playlist.tracks@.len(),
        forall|k: int|
            0 <= k < r.tracks@.len() ==> (#[trigger] r.tracks@[k])@ == link_of(playlist.tracks@[k]),
{
    let tracks = links_to_tracks(&playlist.tracks);
    ExtractLinksResponse {
        kind: "playlist",
        title: Some(playlist.title),
        artist: None,
        artwork_url: upgrade_optional(&playlist.artwork_url),
        tracks,
    }
}

/// The answer for an artist profile with the given tracks.
pub fn build_artist_response(user: &User, tracks: Vec<Track>) -> (r: ExtractLinksResponse)
    ensures
        r@ == artist_response(*user, tracks@),
        r.kind@ == "artist"@,
        r.tracks@.len() == tracks@.len(),
        forall|k: int|
            0 <= k < r.tracks@.len() ==> (#[trigger] r.tracks@[k])@ == link_of(tracks@[k]),
{
    ExtractLinksResponse {
        kind: "artist",
        title: Some(user.username.clone()),
        artist: None,
        artwork_url: user.avatar_url.clone(),
        tracks: links_to_tracks(&tracks),
    }
}

/// The answer for a resource by itself.
pub open spec fn answers_alone(
    answer: Result<ExtractLinksResponse, PluginError>,
    resolved: ResolveResponse,
) -> bool {
    match resolved {
        ResolveResponse::Track(track) => answer matches Ok(links) && links@
            == single_track_response(track),
        ResolveResponse::Playlist(playlist) => answer matches Ok(links) && links@
            == playlist_response(playlist),
        ResolveResponse::User(user) => answer matches Err(PluginError::UnsupportedUrl(m)) && m@
            == "artist profile '"@ + user.username@
            + "' is not supported yet \u{2014} artist pagination is not implemented"@,
        ResolveResponse::Unknown => answer matches Err(PluginError::UnsupportedUrl(m)) && m@
            == "unknown SoundCloud resource kind"@,
    }
}

/// Map a resolved response to an [`ExtractLinksResponse`].
///
/// An artist profile alone says nothing of its tracks, which take further
/// requests, so it is refused here, and so is a resource of an unknown kind.
pub fn response_to_extract_links(resolved: ResolveResponse) -> (r: Result<
    ExtractLinksResponse,
    PluginError,
>)
    ensures
        match resolved {
            ResolveResponse::Track(track) => r matches Ok(links) && links@
                == single_track_response(track),
            ResolveResponse::Playlist(playlist) => r matches Ok(links) && links@
                == playlist_response(playlist),
            ResolveResponse::User(user) => r matches Err(PluginError::UnsupportedUrl(m)) && m@
                == "artist profile '"@ + user.username@
                + "' is not supported yet \u{2014} artist pagination is not implemented"@,
            ResolveResponse::Unknown => r matches Err(PluginError::UnsupportedUrl(m)) && m@
                == "unknown SoundCloud resource kind"@,
        },
        answers_alone(r, resolved),
{
    match resolved {
        ResolveResponse::Track(track) => Ok(build_single_track_response(track)),
        ResolveResponse::Playlist(playlist) => Ok(build_playlist_response(playlist)),
        ResolveResponse::User(user) => Err(
            PluginError::UnsupportedUrl(
                "artist profile '".to_owned().concat(user.username.as_str()).concat(
                    "' is not supported yet \u{2014} artist pagination is not implemented",
                ),
            ),
        ),
        ResolveResponse::Unknown => Err(
            PluginError::UnsupportedUrl("unknown SoundCloud resource kind".to_owned()),
        ),
    }
}

} // verus!
