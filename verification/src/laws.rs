//! What the operations promise, from the URL that is given to the request that
//! goes out and the answer that comes back.

use vstd::prelude::*;
use vstd::string::*;
use vstd::utf8::encode_utf8;

use crate::api::{
    get_text, law_client_id_is_appended_once,
    law_first_page_url_carries_the_user, law_progressive_is_preferred,
    law_resolve_url_carries_the_url, law_resource_is_known_by_urn_or_id,
    law_template_url_gets_client_id, request_text, resolve_url, HttpResponse, Playlist, ResolveResponse,
    Track, TrackCollectionResponse, Transcoding, User,
};
use crate::artist::{kept, law_next_page_is_the_one_named, next_page, TrackPager};
use crate::client_id::{asset_urls, distinct, string_texts};
use crate::encoding::{
    law_encoded_alphabet, law_percent_decoding_undoes_encoding, percent_decoded, truncated,
    url_encoded,
};
use crate::error::PluginError;
use crate::extractor::{
    audio_format, last_line, law_download_path, law_download_path_is_the_last_line,
    shortened_stderr, stands_last, ytdlp_text,
};
use crate::json::{
    json_char, json_chars, json_text, lemma_first_member, lemma_next_member, member_text,
    object_text,
};
use crate::plugin_api::{
    after_api, after_config, after_home, after_page, after_resolve, after_stream_url, after_tracks,
    after_write, after_ytdlp, api_failure, begins_download, begins_links, begins_playlist,
    begins_track, collected, config_entry, goes_on, law_artist_pages_add_up, makes_of, page_error,
    pages_run, reply_body, AfterHttp, Goal, HttpReply, Outcome, Step, Want, YtDlpReply,
};
use crate::text::{contains_text, decimal, opt_text, split, white};
use crate::url_matcher::{kind_of, UrlKind};
use crate::{
    answers_alone, flag_text, large_artwork, law_link_tells_its_track, link_of, links_of, ExtractLinksResponse,
    MediaLink,
};

verus! {

// ── Answers ───────────────────────────────────────────────────────────────────

/// A track that was asked for is answered with itself: one link that tells
/// what the track says, under its title.
pub proof fn law_track_is_answered(step: Step, goal: Goal, track: Track)
    requires
        goal == Goal::Links || goal == Goal::Track,
        makes_of(step, goal, ResolveResponse::Track(track)),
    ensures
        step matches Step::Done(Outcome::Links(answer)) && {
            let link = answer.tracks@[0];
            &&& answer.kind@ == "track"@
            &&& answer.title matches Some(title) && title@ == track.title@
            &&& answer.artist is Some <==> link.artist is Some
            &&& answer.artist is Some ==> answer.artist->0@ == link.artist->0@
            &&& answer.artwork_url is Some <==> link.artwork_url is Some
            &&& answer.artwork_url is Some ==> answer.artwork_url->0@ == link.artwork_url->0@
            &&& answer.tracks@.len() == 1
            &&& link.title@ == track.title@
            &&& link.duration_ms == track.duration
            &&& track.permalink_url matches Some(u) ==> link.url@ == u@
            &&& track.permalink_url is None ==> link.url@.len() == 0
            &&& track.urn matches Some(urn) ==> link.id@ == urn@
            &&& track.urn is None && track.id is Some ==> link.id@ == track.id->0.text()
            &&& track.urn is None && track.id is None && track.permalink_url is Some ==> link.id@
                == track.permalink_url->0@
            &&& track.urn is None && track.id is None && track.permalink_url is None ==> link.id@
                == track.title@
            &&& track.artwork_url matches Some(u) ==> (link.artwork_url matches Some(a) && a@
                == large_artwork(u@))
            &&& track.artwork_url is None ==> link.artwork_url is None
            &&& (track.metadata_artist matches Some(m) && exists|i: int|
                0 <= i < m@.len() && !white(#[trigger] m@[i])) ==> (link.artist matches Some(a) && a@
                == track.metadata_artist->0@)
            &&& !(track.metadata_artist matches Some(m) && exists|i: int|
                0 <= i < m@.len() && !white(#[trigger] m@[i])) ==> match track.user {
                Some(user) => link.artist matches Some(a) && a@ == user.username@,
                None => link.artist is None,
            }
        },
{
    let answer = step->Done_0->Links_0;
    assert(answer@.tracks[0] == link_of(track));
    assert(answer@.tracks.len() == 1);
    law_link_tells_its_track(answer.tracks@[0], track);
    assert(answer@.artist == opt_text(answer.artist));
    assert(answer.tracks@[0]@.artist == opt_text(answer.tracks@[0].artist));
    assert(answer@.artwork_url == opt_text(answer.artwork_url));
    assert(answer.tracks@[0]@.artwork_url == opt_text(answer.tracks@[0].artwork_url));
}

/// A playlist is answered with one link for each of its tracks, in order: their
/// number is that of the tracks, and the link at `k` tells what the track at
/// `k` says.
pub proof fn law_playlist_is_answered(step: Step, goal: Goal, playlist: Playlist, k: int)
    requires
        goal == Goal::Links || goal == Goal::Playlist,
        makes_of(step, goal, ResolveResponse::Playlist(playlist)),
    ensures
        step matches Step::Done(Outcome::Links(answer)) && {
            let link = answer.tracks@[k];
            let track = playlist.tracks@[k];
            &&& answer.kind@ == "playlist"@
            &&& answer.title matches Some(title) && title@ == playlist.title@
            &&& answer.artist is None
            &&& playlist.artwork_url matches Some(u) ==> (answer.artwork_url matches Some(a) && a@
                == large_artwork(u@))
            &&& playlist.artwork_url is None ==> answer.artwork_url is None
            &&& answer.tracks@.len() == playlist.tracks@.len()
            &&& 0 <= k < playlist.tracks@.len() ==> {
                &&& link.title@ == track.title@
                &&& link.duration_ms == track.duration
                &&& track.permalink_url matches Some(u) ==> link.url@ == u@
                &&& track.permalink_url is None ==> link.url@.len() == 0
                &&& track.urn matches Some(urn) ==> link.id@ == urn@
                &&& track.urn is None && track.id is Some ==> link.id@ == track.id->0.text()
                &&& track.urn is None && track.id is None && track.permalink_url is Some ==> link.id@
                    == track.permalink_url->0@
                &&& track.urn is None && track.id is None && track.permalink_url is None ==> link.id@
                    == track.title@
                &&& track.artwork_url matches Some(u) ==> (link.artwork_url matches Some(a) && a@
                    == large_artwork(u@))
                &&& track.artwork_url is None ==> link.artwork_url is None
                &&& (track.metadata_artist matches Some(m) && exists|i: int|
                    0 <= i < m@.len() && !white(#[trigger] m@[i])) ==> (link.artist matches Some(a) && a@
                    == track.metadata_artist->0@)
                &&& !(track.metadata_artist matches Some(m) && exists|i: int|
                    0 <= i < m@.len() && !white(#[trigger] m@[i])) ==> match track.user {
                    Some(user) => link.artist matches Some(a) && a@ == user.username@,
                    None => link.artist is None,
                }
            }
        },
{
    let answer = step->Done_0->Links_0;
    lemma_links(answer, playlist.tracks@);
    if 0 <= k < playlist.tracks@.len() {
        law_link_tells_its_track(answer.tracks@[k], playlist.tracks@[k]);
    }
    assert(answer@.artist == opt_text(answer.artist));
    assert(answer@.artwork_url == opt_text(answer.artwork_url));
}

/// An artist is answered with one link for each track that is kept of those on
/// all pages, in order: their number is that of the tracks kept, and the link
/// at `k` tells what the track at `k` says. The avatar stays as it is. Where no
/// track is kept, the answer is an error that says so.
pub proof fn law_artist_is_answered(
    start: TrackPager,
    pages: Seq<TrackCollectionResponse>,
    steps: Seq<Step>,
    k: int,
)
    requires
        pages_run(start, pages, steps),
        pages.len() > 0,
        pages.len() == 20 || pages.last().next_href is None || forall|i: int|
            0 <= i < pages.last().next_href->0@.len() ==> white(
                #[trigger] pages.last().next_href->0@[i],
            ),
    ensures
        ({
            let tracks = kept(collected(pages));
            let user = start.user();
            &&& tracks.len() == 0 ==> (steps.last() matches Step::Done(
                Outcome::Failed(PluginError::UnsupportedUrl(m)),
            ) && m@ == "artist profile '"@ + user.username@
                + "' has no downloadable public tracks"@)
            &&& tracks.len() > 0 ==> (steps.last() matches Step::Done(Outcome::Links(answer)) && {
                let link = answer.tracks@[k];
                let track = tracks[k];
                &&& answer.kind@ == "artist"@
                &&& answer.title matches Some(title) && title@ == user.username@
                &&& answer.artist is None
                &&& user.avatar_url matches Some(u) ==> (answer.artwork_url matches Some(a) && a@
                    == u@)
                &&& user.avatar_url is None ==> answer.artwork_url is None
                &&& answer.tracks@.len() == tracks.len()
                &&& 0 <= k < tracks.len() ==> {
                    &&& link.title@ == track.title@
                    &&& link.duration_ms == track.duration
                    &&& track.permalink_url matches Some(u) ==> link.url@ == u@
                    &&& track.permalink_url is None ==> link.url@.len() == 0
                    &&& track.urn matches Some(urn) ==> link.id@ == urn@
                    &&& track.urn is None && track.id is Some ==> link.id@ == track.id->0.text()
                    &&& track.urn is None && track.id is None && track.permalink_url is Some ==> link.id@
                        == track.permalink_url->0@
                    &&& track.urn is None && track.id is None && track.permalink_url is None ==> link.id@
                        == track.title@
                    &&& track.artwork_url matches Some(u) ==> (link.artwork_url matches Some(a) && a@
                        == large_artwork(u@))
                    &&& track.artwork_url is None ==> link.artwork_url is None
                    &&& (track.metadata_artist matches Some(m) && exists|i: int|
                        0 <= i < m@.len() && !white(#[trigger] m@[i])) ==> (link.artist matches Some(a) && a@
                        == track.metadata_artist->0@)
                    &&& !(track.metadata_artist matches Some(m) && exists|i: int|
                        0 <= i < m@.len() && !white(#[trigger] m@[i])) ==> match track.user {
                        Some(user) => link.artist matches Some(a) && a@ == user.username@,
                        None => link.artist is None,
                    }
                }
            })
        }),
{
    law_artist_pages_add_up(start, pages, steps);
    law_next_page_is_the_one_named(pages.last());
    let tracks = kept(collected(pages));
    if tracks.len() > 0 {
        let answer = steps.last()->Done_0->Links_0;
        lemma_links(answer, tracks);
        if 0 <= k < tracks.len() {
            law_link_tells_its_track(answer.tracks@[k], tracks[k]);
        }
        assert(answer@.artist == opt_text(answer.artist));
        assert(answer@.artwork_url == opt_text(answer.artwork_url));
    }
}

/// The links of an answer, one by one.
proof fn lemma_links(answer: ExtractLinksResponse, tracks: Seq<Track>)
    requires
        answer@.tracks == links_of(tracks),
    ensures
        answer.tracks@.len() == tracks.len(),
        forall|k: int|
            0 <= k < tracks.len() ==> (#[trigger] answer.tracks@[k])@ == link_of(tracks[k]),
{
    assert(answer@.tracks == answer.tracks@.map_values(|link: MediaLink| link@));
    assert(answer@.tracks.len() == links_of(tracks).len());
    assert forall|k: int| 0 <= k < tracks.len() implies (#[trigger] answer.tracks@[k])@ == link_of(
        tracks[k],
    ) by {
        assert(answer@.tracks[k] == answer.tracks@[k]@);
        assert(links_of(tracks)[k] == link_of(tracks[k]));
    }
}

/// Without an operation that follows artist profiles, a resource is answered as
/// it would be by `extract_links`, and a profile is refused by its name.
pub proof fn law_resource_is_answered_alone(
    answer: Result<ExtractLinksResponse, PluginError>,
    resolved: ResolveResponse,
    step: Step,
)
    requires
        answers_alone(answer, resolved),
        makes_of(step, Goal::Links, resolved),
    ensures
        resolved is Track || resolved is Playlist ==> (answer matches Ok(links) && (
        step matches Step::Done(Outcome::Links(same)) && same@ == links@)),
        resolved matches ResolveResponse::User(user) ==> (answer matches Err(
            PluginError::UnsupportedUrl(m),
        ) && ("artist profile '"@ + user.username@).is_prefix_of(m@)
            && "' is not supported yet \u{2014} artist pagination is not implemented"@.is_suffix_of(
            m@,
        )),
        resolved is Unknown ==> (answer matches Err(PluginError::UnsupportedUrl(m)) && m@
            == "unknown SoundCloud resource kind"@),
{
    if let ResolveResponse::User(user) = resolved {
        let m = answer->Err_0->UnsupportedUrl_0@;
        let front = "artist profile '"@ + user.username@;
        let rear = "' is not supported yet \u{2014} artist pagination is not implemented"@;
        assert(m == front + rear);
        assert(front =~= m.take(front.len() as int));
        assert(rear =~= m.subrange(m.len() - rear.len(), m.len() as int));
    }
}

/// A resource that does not fit the operation is refused, with the reason.
pub proof fn law_unfit_resource_is_refused(step: Step, goal: Goal, resolved: ResolveResponse)
    requires
        makes_of(step, goal, resolved),
    ensures
        ({
            let reason = step->Done_0->Failed_0->UnsupportedUrl_0@;
            let refused = step matches Step::Done(Outcome::Failed(PluginError::UnsupportedUrl(_)));
            &&& goal == Goal::Links && resolved is Unknown ==> refused && reason
                == "unknown SoundCloud resource kind"@
            &&& goal == Goal::Playlist && resolved is Unknown ==> refused && reason
                == "unknown resource kind"@
            &&& goal == Goal::Playlist && resolved is Track ==> refused && reason
                == "single track cannot be extracted as playlist"@
            &&& (goal == Goal::Track || goal == Goal::StreamUrl) && !(resolved is Track)
                ==> refused && reason == "resolved resource is not a track"@
        }),
{
}

// ── Requests ──────────────────────────────────────────────────────────────────

/// A GET request is a JSON object with the method and the URL.
pub proof fn law_get_request_in_json(url: Seq<char>)
    ensures
        get_text(url) == object_text(
            seq![member_text("method"@, "\"GET\""@), member_text("url"@, json_text(url))],
        ),
{
    reveal_strlit("{");
    reveal_strlit(",");
    reveal_strlit("\"");
    reveal_strlit("\":");
    reveal_strlit("GET");
    reveal_strlit("\"GET\"");
    reveal_strlit("method");
    reveal_strlit("url");
    reveal_strlit("{\"method\":");
    reveal_strlit(",\"url\":");
    assert(json_text("GET"@) =~= "\"GET\""@) by {
        let g = "GET"@;
        lemma_plain_in_json(g);
    }
    assert("{\"method\":"@ =~= "{"@ + ("\""@ + "method"@ + "\":"@));
    assert(",\"url\":"@ =~= ","@ + ("\""@ + "url"@ + "\":"@));
    let m = seq![member_text("method"@, "\"GET\""@)];
    let t = "{\"method\":"@ + "\"GET\""@;
    lemma_first_member("{\"method\":"@, "method"@, "\"GET\""@);
    lemma_next_member(t, m, ",\"url\":"@, "url"@, json_text(url));
    let members = seq![member_text("method"@, "\"GET\""@), member_text("url"@, json_text(url))];
    assert(members =~= m.push(member_text("url"@, json_text(url))));
    let u = t + ",\"url\":"@ + json_text(url);
    assert(u + Seq::<char>::empty() =~= u);
}

/// Any request is a JSON object with the method and the URL, and with headers
/// and a body exactly where there are any.
pub proof fn law_request_in_json(
    method: Seq<char>,
    url: Seq<char>,
    headers: Option<Seq<char>>,
    body: Option<Seq<char>>,
)
    ensures
        request_text(method, url, headers, body) == object_text(
            seq![
                member_text("method"@, json_text(method)),
                member_text("url"@, json_text(url)),
            ] + (match headers {
                Some(h) => seq![member_text("headers"@, h)],
                None => Seq::empty(),
            }) + (match body {
                Some(b) => seq![member_text("body"@, json_text(b))],
                None => Seq::empty(),
            }),
        ),
{
    lemma_request_leads();
    let none = Seq::<char>::empty();
    let no_member = Seq::<Seq<char>>::empty();
    let m1 = seq![member_text("method"@, json_text(method))];
    let t1 = "{\"method\":"@ + json_text(method);
    lemma_first_member("{\"method\":"@, "method"@, json_text(method));
    let m2 = m1.push(member_text("url"@, json_text(url)));
    let t2 = t1 + ",\"url\":"@ + json_text(url);
    lemma_next_member(t1, m1, ",\"url\":"@, "url"@, json_text(url));
    assert(m2 =~= seq![
        member_text("method"@, json_text(method)),
        member_text("url"@, json_text(url)),
    ]);
    let (m3, t3) = match headers {
        Some(h) => {
            lemma_next_member(t2, m2, ",\"headers\":"@, "headers"@, h);
            assert(t2 + (",\"headers\":"@ + h) =~= t2 + ",\"headers\":"@ + h);
            let m3 = m2.push(member_text("headers"@, h));
            assert(m3 =~= m2 + seq![member_text("headers"@, h)]);
            (m3, t2 + (",\"headers\":"@ + h))
        },
        None => {
            assert(t2 + none =~= t2);
            assert(m2 + no_member =~= m2);
            (m2, t2 + none)
        },
    };
    match body {
        Some(b) => {
            lemma_next_member(t3, m3, ",\"body\":"@, "body"@, json_text(b));
            assert(t3 + (",\"body\":"@ + json_text(b)) =~= t3 + ",\"body\":"@ + json_text(b));
            assert(m3.push(member_text("body"@, json_text(b))) =~= m3 + seq![
                member_text("body"@, json_text(b)),
            ]);
        },
        None => {
            assert(t3 + none =~= t3);
            assert(m3 + no_member =~= m3);
        },
    }
}

/// What stands before each value of a request.
proof fn lemma_request_leads()
    ensures
        "{\"method\":"@ == "{"@ + ("\""@ + "method"@ + "\":"@),
        ",\"url\":"@ == ","@ + ("\""@ + "url"@ + "\":"@),
        ",\"headers\":"@ == ","@ + ("\""@ + "headers"@ + "\":"@),
        ",\"body\":"@ == ","@ + ("\""@ + "body"@ + "\":"@),
{
    reveal_strlit("{");
    reveal_strlit(",");
    reveal_strlit("\"");
    reveal_strlit("\":");
    reveal_strlit("method");
    reveal_strlit("url");
    reveal_strlit("headers");
    reveal_strlit("body");
    reveal_strlit("{\"method\":");
    reveal_strlit(",\"url\":");
    reveal_strlit(",\"headers\":");
    reveal_strlit(",\"body\":");
}

/// A text without quotes, backslashes and control characters stands as it is in
/// a JSON string.
proof fn lemma_plain_in_json(s: Seq<char>)
    requires
        forall|i: int|
            0 <= i < s.len() ==> (#[trigger] s[i]) != '"' && s[i] != '\\' && s[i] >= ' ',
    ensures
        json_chars(s) == s,
    decreases s.len(),
{
    if s.len() > 0 {
        let before = s.drop_last();
        assert forall|i: int| 0 <= i < before.len() implies (#[trigger] before[i]) != '"'
            && before[i] != '\\' && before[i] >= ' ' by {
            assert(before[i] == s[i]);
        }
        lemma_plain_in_json(before);
        lemma_plain_char(s[s.len() - 1]);
        assert(before + seq![s.last()] =~= s);
    } else {
        assert(json_chars(s) =~= s);
    }
}

/// Such a character stands for itself.
proof fn lemma_plain_char(c: char)
    requires
        c != '"' && c != '\\' && c >= ' ',
    ensures
        json_char(c) == seq![c],
{
}

/// What an operation asks `/resolve` is the URL that it was given: the request,
/// letter for letter, is a GET of the endpoint with two parameters, of which the
/// first decodes to the URL and the second to the client id. The answer is
/// taken for the operation that asked.
pub proof fn law_operation_resolves_its_url(
    first: Step,
    next: Step,
    goal: Goal,
    url: Seq<char>,
    client_id: Seq<char>,
)
    requires
        match goal {
            Goal::Links => begins_links(first, url),
            Goal::Playlist => begins_playlist(first, url),
            Goal::Track => begins_track(first, Goal::Track, url),
            Goal::StreamUrl => begins_track(first, Goal::StreamUrl, url),
        },
        first matches Step::ReadConfig { then, .. } && goes_on(next, then.want, client_id),
    ensures
        next matches Step::SendHttp { request, then } && then == (AfterHttp::Resolve { goal })
            && exists|p: Seq<char>, q: Seq<char>|
            {
                &&& request@
                    == #[trigger] ("{\"method\":\"GET\",\"url\":\"https://api-v2.soundcloud.com/resolve?url="@
                    + p + "&client_id="@ + q + "\"}"@)
                &&& !p.contains('&')
                &&& percent_decoded(p) == encode_utf8(url)
                &&& percent_decoded(q) == encode_utf8(client_id)
            },
{
    let p = url_encoded(url);
    let q = url_encoded(client_id);
    law_percent_decoding_undoes_encoding(encode_utf8(url));
    law_percent_decoding_undoes_encoding(encode_utf8(client_id));
    if p.contains('&') {
        let i = choose|i: int| 0 <= i < p.len() && p[i] == '&';
        law_encoded_alphabet(encode_utf8(url), i);
    }
    lemma_resolve_request_text(url, client_id);
    let request = next->SendHttp_request;
    assert(request@
        == "{\"method\":\"GET\",\"url\":\"https://api-v2.soundcloud.com/resolve?url="@ + p
        + "&client_id="@ + q + "\"}"@);
}

/// The text of a `/resolve` request.
proof fn lemma_resolve_request_text(url: Seq<char>, client_id: Seq<char>)
    ensures
        get_text(resolve_url(url, client_id))
            == "{\"method\":\"GET\",\"url\":\"https://api-v2.soundcloud.com/resolve?url="@
            + url_encoded(url) + "&client_id="@ + url_encoded(client_id) + "\"}"@,
{
    let target = resolve_url(url, client_id);
    lemma_resolve_url_is_plain(url, client_id);
    lemma_plain_in_json(target);
    lemma_get_text(target);
    lemma_resolve_front();
    let front = "{\"method\":\"GET\",\"url\":\""@;
    let head = "https://api-v2.soundcloud.com/resolve?url="@;
    assert(front + target + "\"}"@ =~= (front + head) + url_encoded(url) + "&client_id="@
        + url_encoded(client_id) + "\"}"@);
}

/// The front of a `/resolve` request.
proof fn lemma_resolve_front()
    ensures
        "{\"method\":\"GET\",\"url\":\"https://api-v2.soundcloud.com/resolve?url="@
            == "{\"method\":\"GET\",\"url\":\""@ + "https://api-v2.soundcloud.com/resolve?url="@,
{
    reveal_strlit("{\"method\":\"GET\",\"url\":\"https://api-v2.soundcloud.com/resolve?url=");
    reveal_strlit("{\"method\":\"GET\",\"url\":\"");
    reveal_strlit("https://api-v2.soundcloud.com/resolve?url=");
}

/// The text of a GET request, by what stands around the URL.
proof fn lemma_get_text(url: Seq<char>)
    ensures
        get_text(url) == "{\"method\":\"GET\",\"url\":\""@ + json_chars(url) + "\"}"@,
{
    reveal_strlit("GET");
    reveal_strlit("{\"method\":");
    reveal_strlit(",\"url\":");
    reveal_strlit("}");
    reveal_strlit("\"}");
    reveal_strlit("{\"method\":\"GET\",\"url\":\"");
    lemma_plain_in_json("GET"@);
    let front = "{\"method\":"@ + json_text("GET"@) + ",\"url\":"@;
    assert(front + seq!['"'] =~= "{\"method\":\"GET\",\"url\":\""@);
    assert(seq!['"'] + "}"@ =~= "\"}"@);
    let none = Seq::<char>::empty();
    assert(front + json_text(url) + none + none + "}"@ =~= (front + seq!['"']) + json_chars(url)
        + (seq!['"'] + "}"@));
}

/// A `/resolve` URL holds nothing that JSON escapes.
proof fn lemma_resolve_url_is_plain(url: Seq<char>, client_id: Seq<char>)
    ensures
        forall|i: int|
            0 <= i < resolve_url(url, client_id).len() ==> (#[trigger] resolve_url(
                url,
                client_id,
            )[i]) != '"' && resolve_url(url, client_id)[i] != '\\' && resolve_url(url, client_id)[i]
                >= ' ',
{
    let head = "https://api-v2.soundcloud.com/resolve?url="@;
    let middle = "&client_id="@;
    let p = url_encoded(url);
    let q = url_encoded(client_id);
    let target = resolve_url(url, client_id);
    assert forall|i: int| 0 <= i < target.len() implies (#[trigger] target[i]) != '"' && target[i]
        != '\\' && target[i] >= ' ' by {
        let a = head.len() as int;
        let b = a + p.len();
        let c = b + middle.len();
        if i < a {
            assert(target[i] == head[i]);
            lemma_resolve_head_is_plain(i);
        } else if i < b {
            assert(target[i] == p[i - a]);
            law_encoded_alphabet(encode_utf8(url), i - a);
        } else if i < c {
            assert(target[i] == middle[i - b]);
            lemma_resolve_middle_is_plain(i - b);
        } else {
            assert(target[i] == q[i - c]);
            law_encoded_alphabet(encode_utf8(client_id), i - c);
        }
    }
}

/// Nor does what stands before the first parameter.
proof fn lemma_resolve_head_is_plain(i: int)
    requires
        0 <= i < "https://api-v2.soundcloud.com/resolve?url="@.len(),
    ensures
        ({
            let c = "https://api-v2.soundcloud.com/resolve?url="@[i];
            c != '"' && c != '\\' && c >= ' '
        }),
{
    reveal_strlit("https://api-v2.soundcloud.com/resolve?url=");
    if i < 14 {
        assert(i == 0 || i == 1 || i == 2 || i == 3 || i == 4 || i == 5 || i == 6 || i == 7 || i
            == 8 || i == 9 || i == 10 || i == 11 || i == 12 || i == 13);
    } else if i < 28 {
        assert(i == 14 || i == 15 || i == 16 || i == 17 || i == 18 || i == 19 || i == 20 || i ==
            21 || i == 22 || i == 23 || i == 24 || i == 25 || i == 26 || i == 27);
    } else {
        assert(i == 28 || i == 29 || i == 30 || i == 31 || i == 32 || i == 33 || i == 34 || i ==
            35 || i == 36 || i == 37 || i == 38 || i == 39 || i == 40 || i == 41);
    }
}

/// Nor does what stands between the parameters.
proof fn lemma_resolve_middle_is_plain(i: int)
    requires
        0 <= i < "&client_id="@.len(),
    ensures
        ({
            let c = "&client_id="@[i];
            c != '"' && c != '\\' && c >= ' '
        }),
{
    reveal_strlit("&client_id=");
    assert(i == 0 || i == 1 || i == 2 || i == 3 || i == 4 || i == 5 || i == 6 || i == 7 || i ==
        8 || i == 9 || i == 10);
}

/// Two URLs never make one `/resolve` request.
pub proof fn law_each_url_has_its_own_request(a: Seq<char>, b: Seq<char>, client_id: Seq<char>)
    requires
        get_text(resolve_url(a, client_id)) == get_text(resolve_url(b, client_id)),
    ensures
        a == b,
{
    let s = resolve_url(a, client_id);
    let t = resolve_url(b, client_id);
    lemma_get_text(s);
    lemma_get_text(t);
    let front = "{\"method\":\"GET\",\"url\":\""@;
    let x = get_text(s);
    assert(x.subrange(front.len() as int, x.len() - "\"}"@.len()) =~= json_chars(s));
    assert(x.subrange(front.len() as int, x.len() - "\"}"@.len()) =~= json_chars(t));
    crate::json::law_json_text_can_be_read_back(s);
    crate::json::law_json_text_can_be_read_back(t);
    law_resolve_url_carries_the_url(b, client_id);
}

/// An artist profile is followed to its tracks: the client id is asked for, and
/// with it the first page of the tracks of the artist's URN, or else of the id.
/// A profile with neither is refused.
pub proof fn law_artist_profile_is_followed(
    step: Step,
    next: Step,
    goal: Goal,
    user: User,
    client_id: Seq<char>,
)
    requires
        goal == Goal::Links || goal == Goal::Playlist,
        makes_of(step, goal, ResolveResponse::User(user)),
        step matches Step::ReadConfig { then, .. } ==> goes_on(next, then.want, client_id),
    ensures
        step matches Step::ReadConfig { key, then } && key@ == "client_id"@ && then.want == (
        Want::Tracks { user }),
        user.urn is None && user.id is None ==> (next matches Step::Done(
            Outcome::Failed(PluginError::UnsupportedUrl(m)),
        ) && m@ == "artist profile '"@ + user.username@
            + "' has no stable id or urn in the resolve response"@),
        user.urn is Some || user.id is Some ==> (next matches Step::SendHttp {
            request,
            then: AfterHttp::Page { pager },
        } && {
            let known_by = if user.urn is Some {
                user.urn->0@
            } else {
                user.id->0.text()
            };
            &&& pager.user() == user
            &&& pager.user_id() == known_by
            &&& pager.client_id() == client_id
            &&& pager.pages() == 0
            &&& pager.received().len() == 0
            &&& exists|p: Seq<char>, q: Seq<char>|
                {
                    &&& request@ == get_text(
                        #[trigger] ("https://api-v2.soundcloud.com/users/"@ + p
                            + "/tracks?linked_partitioning=true&page_size=50&client_id="@ + q),
                    )
                    &&& !p.contains('/') && !p.contains('?')
                    &&& percent_decoded(p) == encode_utf8(known_by)
                    &&& percent_decoded(q) == encode_utf8(client_id)
                }
        }),
{
    law_resource_is_known_by_urn_or_id(user.urn, user.id);
    if user.urn is Some || user.id is Some {
        let known_by = if user.urn is Some {
            user.urn->0@
        } else {
            user.id->0.text()
        };
        law_first_page_url_carries_the_user(known_by, client_id);
        let (p, q) = choose|p: Seq<char>, q: Seq<char>|
            {
                &&& crate::api::user_tracks_url(known_by, client_id, None)
                    == #[trigger] ("https://api-v2.soundcloud.com/users/"@ + p
                    + "/tracks?linked_partitioning=true&page_size=50&client_id="@ + q)
                &&& !p.contains('/') && !p.contains('?')
                &&& percent_decoded(p) == encode_utf8(known_by)
                &&& percent_decoded(q) == encode_utf8(client_id)
            };
        let url = "https://api-v2.soundcloud.com/users/"@ + p
            + "/tracks?linked_partitioning=true&page_size=50&client_id="@ + q;
        assert(next->SendHttp_request@ == get_text(url));
    }
}

/// The next page that a page names is asked for as it is named, with the client
/// id added where it has none, up to the twentieth page; and what the page held
/// is taken in, whole and in order.
pub proof fn law_next_page_is_asked_for(
    step: Step,
    pager: TrackPager,
    page: TrackCollectionResponse,
)
    requires
        after_page(step, pager, page),
        pager.pages() < 19,
        page.next_href matches Some(href) && exists|i: int|
            0 <= i < href@.len() && !white(#[trigger] href@[i]),
    ensures
        step matches Step::SendHttp { request, then: AfterHttp::Page { pager: next } } && {
            let href = page.next_href->0@;
            let separator = if contains_text(href, "?"@) {
                "&"@
            } else {
                "?"@
            };
            &&& contains_text(href, "client_id="@) ==> request@ == get_text(href)
            &&& !contains_text(href, "client_id="@) ==> request@ == get_text(
                href + separator + "client_id="@ + url_encoded(pager.client_id()),
            )
            &&& next.user() == pager.user()
            &&& next.user_id() == pager.user_id()
            &&& next.client_id() == pager.client_id()
            &&& next.pages() == pager.pages() + 1
            &&& next.received() == pager.received() + page.collection@
        },
{
    law_next_page_is_the_one_named(page);
    let href = page.next_href->0@;
    law_client_id_is_appended_once(href, pager.client_id(), Seq::empty());
    assert(next_page(page) == Some(href));
}

/// Of a track's transcodings the first progressive one is resolved, at its own
/// template URL. A track with HLS only is answered with the error that says so,
/// and one with neither with the error that there is no stream.
pub proof fn law_stream_is_the_first_progressive_one(
    step: Step,
    track: Track,
    ts: Seq<Transcoding>,
)
    requires
        makes_of(step, Goal::StreamUrl, ResolveResponse::Track(track)),
        track.media matches Some(media) ==> ts == media.transcodings@,
        track.media is None ==> ts == Seq::<Transcoding>::empty(),
    ensures
        ({
            let progressive = exists|i: int|
                0 <= i < ts.len() && (#[trigger] ts[i]).format is Some && ts[i].format->0.protocol@
                    == "progressive"@;
            let hls = exists|i: int|
                0 <= i < ts.len() && (#[trigger] ts[i]).format is Some && ts[i].format->0.protocol@
                    == "hls"@;
            &&& progressive ==> exists|i: int|
                {
                    &&& 0 <= i < ts.len()
                    &&& (#[trigger] ts[i]).format is Some
                    &&& ts[i].format->0.protocol@ == "progressive"@
                    &&& forall|k: int|
                        0 <= k < i ==> !((#[trigger] ts[k]).format is Some
                            && ts[k].format->0.protocol@ == "progressive"@)
                    &&& step matches Step::ReadConfig { key, then } && key@ == "client_id"@ && (
                    then.want matches Want::Stream { template } && template@ == ts[i].url@)
                }
            &&& !progressive && hls ==> step == Step::Done(
                Outcome::Failed(PluginError::AdaptiveStreamOnly),
            )
            &&& !progressive && !hls ==> step == Step::Done(
                Outcome::Failed(PluginError::NoStreamAvailable),
            )
        }),
{
    assert(ts == crate::plugin_api::transcodings_of(track));
    law_progressive_is_preferred(ts);
    reveal_strlit("progressive");
    reveal_strlit("hls");
    assert("progressive"@.len() != "hls"@.len());
    match crate::api::best_transcoding(ts) {
        Some(i) => {
            assert(ts[i].format is Some);
        },
        None => {},
    }
}

/// A template URL is asked for with the client id as a further parameter.
pub proof fn law_template_url_is_asked_for(next: Step, template: String, client_id: Seq<char>)
    requires
        goes_on(next, Want::Stream { template }, client_id),
    ensures
        next matches Step::SendHttp { request, then } && then == AfterHttp::Stream && {
            &&& template@.contains('?') ==> request@ == get_text(
                template@ + "&client_id="@ + url_encoded(client_id),
            )
            &&& !template@.contains('?') ==> request@ == get_text(
                template@ + "?client_id="@ + url_encoded(client_id),
            )
        },
{
    law_template_url_gets_client_id(template@, client_id);
}

// ── Replies ───────────────────────────────────────────────────────────────────

/// A reply has a body exactly where the host answered with a status from 200 to
/// 299, and it is the body of that answer, empty or not.
pub proof fn law_reply_has_the_body_of_a_success(reply: HttpReply)
    ensures
        reply_body(reply) is Some <==> (reply matches HttpReply::Response(response) && 200
            <= response.status <= 299),
        reply matches HttpReply::Response(response) ==> (200 <= response.status <= 299
            ==> reply_body(reply) == Some(response.body@)),
{
}

/// What is made of a reply that has no body. An answer that denies access is
/// told as such, any other by its status and the start of its body. A failure
/// of the host function is passed on as it is where the API was asked, and a
/// reply that cannot be read is an error of the host.
pub proof fn law_failed_reply_is_told(step: Step, error: PluginError, reply: HttpReply)
    requires
        reply_body(reply) is None,
        api_failure(step, reply),
        page_error(reply, error),
    ensures
        match reply {
            HttpReply::HostError(m) => {
                &&& step == Step::Done(Outcome::HostFailed(m))
                &&& error == PluginError::HostResponse(m)
            },
            HttpReply::BadEnvelope(m) => {
                &&& step == Step::Done(Outcome::Failed(PluginError::HostResponse(m)))
                &&& error == PluginError::HostResponse(m)
            },
            HttpReply::Response(response) => {
                let denied = response.status == 401 || response.status == 403;
                &&& denied ==> (error matches PluginError::Private(m) && m@ == "status "@ + decimal(
                    response.status as nat,
                ))
                &&& !denied ==> (error matches PluginError::HttpStatus { status, message } && status
                    == response.status && message@ == truncated(response.body@, 256))
                &&& denied ==> (step matches Step::Done(Outcome::Failed(PluginError::Private(m)))
                    && m@ == "status "@ + decimal(response.status as nat))
                &&& !denied ==> (step matches Step::Done(
                    Outcome::Failed(PluginError::HttpStatus { status, message }),
                ) && status == response.status && message@ == truncated(response.body@, 256))
            },
        },
{
}

/// A stored client id is used as it is. Where none is stored, the homepage is
/// asked for. A failure to read is an error, and no request goes out without a
/// client id.
pub proof fn law_stored_client_id_is_used(
    step: Step,
    goal: Goal,
    url: String,
    reply: Result<String, String>,
)
    requires
        after_config(step, Want::Resolve { goal, url }, reply),
    ensures
        reply matches Ok(stored) ==> (stored@.len() > 0 ==> (step matches Step::SendHttp {
            request,
            then,
        } && request@ == get_text(resolve_url(url@, stored@)) && then == (AfterHttp::Resolve {
            goal,
        }))),
        reply matches Ok(stored) ==> (stored@.len() == 0 ==> (step matches Step::SendHttp {
            request,
            then,
        } && request@ == get_text("https://soundcloud.com/"@) && then == (AfterHttp::Home {
            want: Want::Resolve { goal, url },
        }))),
        reply matches Err(m) ==> step == Step::Done(Outcome::Failed(PluginError::HostResponse(m))),
{
}

/// A client id that is stored, and one that was found and is now stored, are
/// used alike: whatever was wanted goes on with it.
pub proof fn law_found_client_id_is_used_like_a_stored_one(
    found: Step,
    stored: Step,
    want: Want,
    client_id: String,
)
    requires
        after_write(found, want, client_id@),
        after_config(stored, want, Ok(client_id)),
        client_id@.len() > 0,
    ensures
        goes_on(found, want, client_id@),
        goes_on(stored, want, client_id@),
{
}

/// The body of an answer of the API is what is decoded, letter for letter, for
/// the operation that asked.
pub proof fn law_api_answer_is_decoded(step: Step, asked: AfterHttp, response: HttpResponse)
    requires
        200 <= response.status <= 299,
        after_api(step, asked, HttpReply::Response(response)),
    ensures
        asked matches AfterHttp::Resolve { goal } ==> (step matches Step::DecodeResolve {
            body,
            then,
        } && body@ == response.body@ && then.goal == goal),
        asked matches AfterHttp::Page { pager } ==> (step matches Step::DecodeTracks { body, then }
            && body@ == response.body@ && then.pager == pager),
        asked is Stream ==> (step matches Step::DecodeStreamUrl { body, .. } && body@
            == response.body@),
{
}

/// Where the API gave no body, the operation that asked is over, with the error
/// for the reply.
pub proof fn law_api_failure_ends_the_operation(step: Step, asked: AfterHttp, reply: HttpReply)
    requires
        asked is Resolve || asked is Page || asked is Stream,
        after_api(step, asked, reply),
        !(reply matches HttpReply::Response(response) && 200 <= response.status <= 299),
    ensures
        step is Done,
        api_failure(step, reply),
{
}

/// What cannot be decoded is an error with the reason.
pub proof fn law_undecodable_answer_is_an_error(
    resolve: Step,
    page: Step,
    stream: Step,
    goal: Goal,
    pager: TrackPager,
    reason: String,
)
    requires
        after_resolve(resolve, goal, Err(reason)),
        after_tracks(page, pager, Err(reason)),
        after_stream_url(stream, Err(reason)),
    ensures
        resolve == Step::Done(Outcome::Failed(PluginError::ParseJson(reason))),
        page == Step::Done(Outcome::Failed(PluginError::ParseJson(reason))),
        stream == Step::Done(Outcome::Failed(PluginError::ParseJson(reason))),
{
}

/// What was decoded is taken: a resource as what it is, a page as it is, and a
/// stream URL as the result.
pub proof fn law_decoded_answer_is_taken(
    resolve: Step,
    tracks: Step,
    stream: Step,
    goal: Goal,
    resolved: ResolveResponse,
    pager: TrackPager,
    page: TrackCollectionResponse,
    url: String,
)
    requires
        after_resolve(resolve, goal, Ok(resolved)),
        after_tracks(tracks, pager, Ok(page)),
        after_stream_url(stream, Ok(url)),
    ensures
        makes_of(resolve, goal, resolved),
        after_page(tracks, pager, page),
        stream == Step::Done(Outcome::Text(url)),
{
}

/// A run of yt-dlp that succeeded ends with the path that it printed last, and
/// with an error where it printed nothing but white space. One that failed ends
/// with its exit code, and a failure of the host with that failure.
pub proof fn law_download_ends_with_the_path(step: Step, reply: YtDlpReply)
    requires
        after_ytdlp(step, reply),
    ensures
        match reply {
            YtDlpReply::HostError(m) => step == Step::Done(Outcome::HostFailed(m)),
            YtDlpReply::BadEnvelope(e) => step == Step::Done(
                Outcome::Failed(PluginError::SerdeJson(e)),
            ),
            YtDlpReply::Response(response) => {
                let stdout = response.stdout@;
                let printed = exists|i: int| 0 <= i < stdout.len() && !white(#[trigger] stdout[i]);
                &&& response.exit_code != 0 ==> (step matches Step::Done(
                    Outcome::Failed(PluginError::Subprocess { exit_code, stderr }),
                ) && exit_code == response.exit_code && stderr@ == shortened_stderr(
                    response.stderr@,
                ))
                &&& response.exit_code == 0 && !printed ==> step == Step::Done(
                    Outcome::Failed(PluginError::NoStreamAvailable),
                )
                &&& response.exit_code == 0 && printed ==> (step matches Step::Done(
                    Outcome::Text(path),
                ) && {
                    &&& path@.len() > 0
                    &&& !white(path@[0])
                    &&& !white(path@.last())
                    &&& !path@.contains('\n')
                    &&& exists|line: int, at: int| stands_last(stdout, path@, line, at)
                })
            },
        },
{
    if let YtDlpReply::Response(response) = reply {
        let stdout = response.stdout@;
        law_download_path(stdout);
        if last_line(split(stdout, '\n')) is Some {
            law_download_path_is_the_last_line(stdout);
        }
    }
}

/// A homepage that cannot be had ends the operation, with the error for the
/// reply.
pub proof fn law_missing_homepage_ends_the_operation(step: Step, want: Want, reply: HttpReply)
    requires
        after_home(step, want, reply),
        !(reply matches HttpReply::Response(response) && 200 <= response.status <= 299),
    ensures
        step matches Step::Done(Outcome::Failed(error)) && page_error(reply, error),
{
}

/// The homepage leads to its first bundle, and to an error where it names none.
pub proof fn law_homepage_leads_to_its_first_bundle(
    step: Step,
    want: Want,
    response: HttpResponse,
)
    requires
        200 <= response.status <= 299,
        after_home(step, want, HttpReply::Response(response)),
    ensures
        ({
            let found = distinct(asset_urls(response.body@, 0));
            &&& found.len() > 0 ==> (step matches Step::SendHttp {
                request,
                then: AfterHttp::Bundle { want: w, urls, tried, last_error },
            } && request@ == get_text(found[0]) && w == want && tried == 1 && last_error is None
                && urls@.len() == found.len() && forall|k: int|
                0 <= k < found.len() ==> (#[trigger] urls@[k])@ == found[k])
            &&& found.len() == 0 ==> (step matches Step::Done(
                Outcome::Failed(PluginError::HostResponse(m)),
            ) && m@ == "no client_id marker in any SoundCloud bundle"@)
        }),
{
    let found = distinct(asset_urls(response.body@, 0));
    let urls = choose|urls: Seq<String>|
        string_texts(urls) == found && #[trigger] crate::plugin_api::tries_on(
            step,
            want,
            urls,
            0,
            None,
        );
    assert(string_texts(urls).len() == urls.len());
    assert forall|k: int| 0 <= k < found.len() implies (#[trigger] urls[k])@ == found[k] by {
        assert(string_texts(urls)[k] == urls[k]@);
    }
}

/// The entry that stores a client id is a JSON object with the name of the
/// setting and the client id.
pub proof fn law_config_entry_in_json(client_id: Seq<char>)
    ensures
        config_entry(client_id) == object_text(
            seq![
                member_text("key"@, "\"client_id\""@),
                member_text("value"@, json_text(client_id)),
            ],
        ),
{
    reveal_strlit("{");
    reveal_strlit(",");
    reveal_strlit("\"");
    reveal_strlit("\":");
    reveal_strlit("key");
    reveal_strlit("value");
    reveal_strlit("\"client_id\"");
    reveal_strlit("{\"key\":\"client_id\",\"value\":");
    let open = "{"@ + ("\""@ + "key"@ + "\":"@);
    let lead = ","@ + ("\""@ + "value"@ + "\":"@);
    let t = open + "\"client_id\""@;
    let m = seq![member_text("key"@, "\"client_id\""@)];
    lemma_first_member(open, "key"@, "\"client_id\""@);
    lemma_next_member(t, m, lead, "value"@, json_text(client_id));
    assert("{\"key\":\"client_id\",\"value\":"@ =~= t + lead);
    let members = seq![
        member_text("key"@, "\"client_id\""@),
        member_text("value"@, json_text(client_id)),
    ];
    assert(members =~= m.push(member_text("value"@, json_text(client_id))));
}

// ── Beginnings ────────────────────────────────────────────────────────────────

/// Which operation takes which URL: all recognised ones are taken by
/// `extract_links`, playlists and artists by `extract_playlist`, and tracks by
/// the others. What is taken is resolved as it was given; what is not, is
/// refused with the URL, and with its kind where it has one.
pub proof fn law_operations_take_their_kinds(
    url: Seq<char>,
    links: Step,
    playlist: Step,
    track: Step,
    stream: Step,
)
    requires
        begins_links(links, url),
        begins_playlist(playlist, url),
        begins_track(track, Goal::Track, url),
        begins_track(stream, Goal::StreamUrl, url),
    ensures
        kind_of(url) == UrlKind::Unknown ==> refused(links, url) && refused(playlist, url)
            && refused(track, url) && refused(stream, url),
        kind_of(url) != UrlKind::Unknown ==> taken(links, Goal::Links, url),
        kind_of(url) == UrlKind::Track ==> taken(track, Goal::Track, url) && taken(
            stream,
            Goal::StreamUrl,
            url,
        ) && refused_by_kind(playlist, UrlKind::Track, url),
        kind_of(url) == UrlKind::Playlist || kind_of(url) == UrlKind::Artist ==> taken(
            playlist,
            Goal::Playlist,
            url,
        ) && refused_by_kind(track, kind_of(url), url) && refused_by_kind(
            stream,
            kind_of(url),
            url,
        ),
{
}

/// The client id is asked for, in order to resolve exactly this URL.
pub open spec fn taken(step: Step, goal: Goal, url: Seq<char>) -> bool {
    step matches Step::ReadConfig { key, then } && key@ == "client_id"@ && (then.want matches
        Want::Resolve { goal: g, url: u } && g == goal && u@ == url)
}

/// The operation is over with the URL as an unrecognised one.
pub open spec fn refused(step: Step, url: Seq<char>) -> bool {
    step matches Step::Done(Outcome::Failed(PluginError::UnsupportedUrl(u))) && u@ == url
}

/// The operation is over with the URL as one of a kind that it does not take.
pub open spec fn refused_by_kind(step: Step, kind: UrlKind, url: Seq<char>) -> bool {
    step matches Step::Done(
        Outcome::Failed(PluginError::UnsupportedResourceKind { kind: k, url: u }),
    ) && k == kind && u@ == url
}

/// A flag is told by one of two words.
pub proof fn law_flags_are_told_apart(flag: bool)
    ensures
        flag ==> flag_text(flag) == "true"@,
        !flag ==> flag_text(flag) == "false"@,
        "true"@ != "false"@,
{
    reveal_strlit("true");
    reveal_strlit("false");
    assert("true"@.len() != "false"@.len());
}

/// A download hands the URL and the directory to yt-dlp as they were given, asks
/// for audio only, leaves the quality open, and names nothing else.
pub proof fn law_download_hands_over_what_it_was_given(
    step: Step,
    url: Seq<char>,
    format: Seq<char>,
    output_dir: Seq<char>,
)
    requires
        begins_download(step, url, format, output_dir),
    ensures
        kind_of(url) == UrlKind::Unknown ==> refused(step, url),
        kind_of(url) == UrlKind::Playlist || kind_of(url) == UrlKind::Artist ==> refused_by_kind(
            step,
            kind_of(url),
            url,
        ),
        kind_of(url) == UrlKind::Track ==> (step matches Step::RunYtDlp { request, .. } && request@
            == object_text(
            seq![
                member_text("action"@, "\"download\""@),
                member_text("url"@, json_text(url)),
                member_text("quality"@, "null"@),
                member_text("format"@, json_text(audio_format(format))),
                member_text("output_dir"@, json_text(output_dir)),
                member_text("audio_only"@, "true"@),
            ],
        )),
{
    if kind_of(url) == UrlKind::Track {
        lemma_download_members(
            url,
            "null"@,
            json_text(audio_format(format)),
            output_dir,
            "true"@,
        );
    }
}

/// A request to yt-dlp is a JSON object that says what is wanted, and has no
/// other member.
pub proof fn law_ytdlp_request_in_json(
    url: Seq<char>,
    quality: Option<u64>,
    format: Option<Seq<char>>,
    output_dir: Seq<char>,
    audio_only: bool,
)
    ensures
        ytdlp_text(url, quality, format, output_dir, audio_only) == object_text(
            seq![
                member_text("action"@, "\"download\""@),
                member_text("url"@, json_text(url)),
                member_text(
                    "quality"@,
                    match quality {
                        Some(n) => decimal(n as nat),
                        None => "null"@,
                    },
                ),
                member_text(
                    "format"@,
                    match format {
                        Some(name) => json_text(name),
                        None => "null"@,
                    },
                ),
                member_text("output_dir"@, json_text(output_dir)),
                member_text(
                    "audio_only"@,
                    if audio_only {
                        "true"@
                    } else {
                        "false"@
                    },
                ),
            ],
        ),
{
    let q = match quality {
        Some(n) => decimal(n as nat),
        None => "null"@,
    };
    let g = match format {
        Some(name) => json_text(name),
        None => "null"@,
    };
    let o = if audio_only {
        "true"@
    } else {
        "false"@
    };
    lemma_download_members(url, q, g, output_dir, o);
    assert(crate::json::json_number(quality) == q);
    assert(crate::json::json_option(format) == g);
    let members = seq![
        member_text("action"@, "\"download\""@),
        member_text("url"@, json_text(url)),
        member_text("quality"@, q),
        member_text("format"@, g),
        member_text("output_dir"@, json_text(output_dir)),
        member_text("audio_only"@, o),
    ];
    assert(ytdlp_text(url, quality, format, output_dir, audio_only) == object_text(members));
    let stated = seq![
        member_text("action"@, "\"download\""@),
        member_text("url"@, json_text(url)),
        member_text(
            "quality"@,
            match quality {
                Some(n) => decimal(n as nat),
                None => "null"@,
            },
        ),
        member_text(
            "format"@,
            match format {
                Some(name) => json_text(name),
                None => "null"@,
            },
        ),
        member_text("output_dir"@, json_text(output_dir)),
        member_text(
            "audio_only"@,
            if audio_only {
                "true"@
            } else {
                "false"@
            },
        ),
    ];
    assert(stated =~= members);
}

/// The text of a request to yt-dlp, by the texts of its values.
proof fn lemma_download_members(
    url: Seq<char>,
    q: Seq<char>,
    g: Seq<char>,
    output_dir: Seq<char>,
    o: Seq<char>,
)
    ensures
        "{\"action\":\"download\",\"url\":"@ + json_text(url) + ",\"quality\":"@ + q
            + ",\"format\":"@ + g + ",\"output_dir\":"@ + json_text(output_dir)
            + ",\"audio_only\":"@ + o + "}"@ == object_text(
            seq![
                member_text("action"@, "\"download\""@),
                member_text("url"@, json_text(url)),
                member_text("quality"@, q),
                member_text("format"@, g),
                member_text("output_dir"@, json_text(output_dir)),
                member_text("audio_only"@, o),
            ],
        ),
{
    lemma_download_leads();
    let a = member_text("action"@, "\"download\""@);
    let b = member_text("url"@, json_text(url));
    let c = member_text("quality"@, q);
    let d = member_text("format"@, g);
    let e = member_text("output_dir"@, json_text(output_dir));
    let f = member_text("audio_only"@, o);
    let open = "{"@ + ("\""@ + "action"@ + "\":"@);
    let t1 = open + "\"download\""@;
    lemma_first_member(open, "action"@, "\"download\""@);
    let lead = ","@ + ("\""@ + "url"@ + "\":"@);
    let t2 = t1 + lead + json_text(url);
    lemma_next_member(t1, seq![a], lead, "url"@, json_text(url));
    let t3 = t2 + ",\"quality\":"@ + q;
    lemma_next_member(t2, seq![a].push(b), ",\"quality\":"@, "quality"@, q);
    let t4 = t3 + ",\"format\":"@ + g;
    lemma_next_member(t3, seq![a].push(b).push(c), ",\"format\":"@, "format"@, g);
    let t5 = t4 + ",\"output_dir\":"@ + json_text(output_dir);
    lemma_next_member(
        t4,
        seq![a].push(b).push(c).push(d),
        ",\"output_dir\":"@,
        "output_dir"@,
        json_text(output_dir),
    );
    let t6 = t5 + ",\"audio_only\":"@ + o;
    lemma_next_member(
        t5,
        seq![a].push(b).push(c).push(d).push(e),
        ",\"audio_only\":"@,
        "audio_only"@,
        o,
    );
    let members = seq![a, b, c, d, e, f];
    assert(members =~= seq![a].push(b).push(c).push(d).push(e).push(f));
    assert(t6 + "}"@ == object_text(members));
}

/// What stands before each value of a download request.
proof fn lemma_download_leads()
    ensures
        "{\"action\":\"download\",\"url\":"@ == "{"@ + ("\""@ + "action"@ + "\":"@)
            + "\"download\""@ + (","@ + ("\""@ + "url"@ + "\":"@)),
        ",\"quality\":"@ == ","@ + ("\""@ + "quality"@ + "\":"@),
        ",\"format\":"@ == ","@ + ("\""@ + "format"@ + "\":"@),
        ",\"output_dir\":"@ == ","@ + ("\""@ + "output_dir"@ + "\":"@),
        ",\"audio_only\":"@ == ","@ + ("\""@ + "audio_only"@ + "\":"@),
{
    reveal_strlit("{");
    reveal_strlit(",");
    reveal_strlit("\"");
    reveal_strlit("\":");
    reveal_strlit("action");
    reveal_strlit("\"download\"");
    reveal_strlit("url");
    reveal_strlit("quality");
    reveal_strlit("format");
    reveal_strlit("output_dir");
    reveal_strlit("audio_only");
    reveal_strlit("{\"action\":\"download\",\"url\":");
    reveal_strlit(",\"quality\":");
    reveal_strlit(",\"format\":");
    reveal_strlit(",\"output_dir\":");
    reveal_strlit(",\"audio_only\":");
}

} // verus!
