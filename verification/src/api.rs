//! SoundCloud API request and response types.
//!
//! The SoundCloud `/resolve` endpoint answers with JSON of a permissive
//! shape: many fields are optional, depending on the kind of resource and
//! its visibility. The types here hold the fields that the plugin reads.
//!
//! Every outgoing request goes to the host as an [`HttpRequest`] in JSON,
//! and every answer comes back as an [`HttpResponse`].

use std::collections::HashMap;

use vstd::prelude::*;
use vstd::string::*;
use vstd::utf8::encode_utf8;

use crate::encoding::{
    law_encoded_alphabet, law_percent_decoding_undoes_encoding, law_url_encoding_is_injective,
    percent_decoded, truncate, truncated, url_encoded, urlencode,
};
use crate::error::PluginError;
use crate::json::{append_json, json_object_of, json_string_map, json_text};
use crate::text::{contains_text, decimal, decimal_string, has_text, opt_text, same_text};

verus! {

// ── Host function envelope ────────────────────────────────────────────────────

/// A request for the host to perform.
#[derive(Debug)]
pub struct HttpRequest {
    pub method: String,
    pub url: String,
    pub headers: HashMap<String, String>,
    pub body: Option<String>,
}

/// The host's answer to a request.
#[derive(Debug)]
pub struct HttpResponse {
    pub status: u16,
    pub headers: HashMap<String, String>,
    pub body: String,
}

/// The JSON text of a request. Headers and body are left out where there
/// are none; `headers` is the JSON text of the headers.
pub open spec fn request_text(
    method: Seq<char>,
    url: Seq<char>,
    headers: Option<Seq<char>>,
    body: Option<Seq<char>>,
) -> Seq<char> {
    "{\"method\":"@ + json_text(method) + ",\"url\":"@ + json_text(url) + (match headers {
        Some(h) => ",\"headers\":"@ + h,
        None => Seq::empty(),
    }) + (match body {
        Some(b) => ",\"body\":"@ + json_text(b),
        None => Seq::empty(),
    }) + "}"@
}

/// The JSON text of a GET request without headers and body.
pub open spec fn get_text(url: Seq<char>) -> Seq<char> {
    request_text("GET"@, url, None, None)
}

impl HttpRequest {
    /// A GET request without headers and body.
    pub fn get(url: String) -> (r: HttpRequest)
        ensures
            r.method@ == "GET"@,
            r.url == url,
            r.headers@ == Map::<String, String>::empty(),
            r.body is None,
    {
        HttpRequest { method: "GET".to_owned(), url, headers: HashMap::new(), body: None }
    }

    /// The request in JSON.
    pub fn to_json(&self) -> (r: Result<String, PluginError>)
        ensures
            r is Ok,
            self.headers@.is_empty() ==> r->Ok_0@ == request_text(
                self.method@,
                self.url@,
                None,
                opt_text(self.body),
            ),
            !self.headers@.is_empty() ==> exists|h: Seq<char>|
                {
                    &&& json_object_of(self.headers@, h)
                    &&& r->Ok_0@ == #[trigger] request_text(
                        self.method@,
                        self.url@,
                        Some(h),
                        opt_text(self.body),
                    )
                },
    {
        let mut out = "{\"method\":".to_owned();
        append_json(&mut out, self.method.as_str())?;
        out.append(",\"url\":");
        append_json(&mut out, self.url.as_str())?;
        let ghost mut header_text: Option<Seq<char>> = None;
        let ghost front = out@;
        if !self.headers.is_empty() {
            let headers = json_string_map(&self.headers)?;
            proof {
                header_text = Some(headers@);
            }
            out.append(",\"headers\":");
            out.append(headers.as_str());
            assert(out@ =~= front + (",\"headers\":"@ + headers@));
        } else {
            assert(out@ =~= front + Seq::<char>::empty());
        }
        let ghost middle = out@;
        match &self.body {
            Some(body) => {
                out.append(",\"body\":");
                append_json(&mut out, body.as_str())?;
                assert(out@ =~= middle + (",\"body\":"@ + json_text(body@)));
            },
            None => {
                assert(out@ =~= middle + Seq::<char>::empty());
            },
        }
        out.append("}");
        assert(out@ == request_text(
            self.method@,
            self.url@,
            header_text,
            opt_text(self.body),
        ));
        Ok(out)
    }
}

/// The status says that the request succeeded.
pub open spec fn status_ok(status: u16) -> bool {
    200 <= status < 300
}

/// `error` is the error for a response whose status says that the request
/// did not succeed: access denied for 401 and 403, and the status with the
/// shortened body for any other.
pub open spec fn status_error(response: HttpResponse, error: PluginError) -> bool {
    if response.status == 401 || response.status == 403 {
        error matches PluginError::Private(m) && m@ == "status "@ + decimal(
            response.status as nat,
        )
    } else {
        error matches PluginError::HttpStatus { status, message } && status == response.status
            && message@ == truncated(response.body@, 256)
    }
}

impl HttpResponse {
    /// Returns the body if the status is 2xx, else a typed error.
    pub fn into_success_body(self) -> (r: Result<String, PluginError>)
        ensures
            status_ok(self.status) ==> r == Ok::<String, PluginError>(self.body),
            !status_ok(self.status) ==> (r matches Err(e) && status_error(self, e)),
            200 <= self.status < 300 ==> (r matches Ok(body) && body == self.body),
            self.status == 401 || self.status == 403 ==> (r matches Err(PluginError::Private(m))
                && m@ == "status "@ + decimal(self.status as nat)),
            !(200 <= self.status < 300) && self.status != 401 && self.status != 403 ==> (
            r matches Err(PluginError::HttpStatus { status, message }) && status == self.status
                && message@ == truncated(self.body@, 256)),
    {
        if 200 <= self.status && self.status < 300 {
            Ok(self.body)
        } else if self.status == 401 || self.status == 403 {
            let code = decimal_string(self.status as u64);
            Err(PluginError::Private("status ".to_owned().concat(code.as_str())))
        } else {
            Err(
                PluginError::HttpStatus {
                    status: self.status,
                    message: truncate(self.body.as_str(), 256),
                },
            )
        }
    }
}

// ── Requests ──────────────────────────────────────────────────────────────────

/// The `/resolve` URL that asks what a public URL stands for.
pub open spec fn resolve_url(original_url: Seq<char>, client_id: Seq<char>) -> Seq<char> {
    "https://api-v2.soundcloud.com/resolve?url="@ + url_encoded(original_url) + "&client_id="@
        + url_encoded(client_id)
}

/// What joins a further parameter to a URL.
pub open spec fn query_separator(url: Seq<char>) -> char {
    if contains_text(url, "?"@) {
        '&'
    } else {
        '?'
    }
}

/// A URL with the client id as its last parameter.
pub open spec fn with_client_id(url: Seq<char>, client_id: Seq<char>) -> Seq<char> {
    url + seq![query_separator(url)] + "client_id="@ + url_encoded(client_id)
}

/// A URL with the client id among its parameters: one that has any is left
/// as it is.
pub open spec fn client_id_appended(url: Seq<char>, client_id: Seq<char>) -> Seq<char> {
    if contains_text(url, "client_id="@) {
        url
    } else {
        with_client_id(url, client_id)
    }
}

/// The URL of a page of a user's tracks: the first, or the one that the page
/// before it names.
pub open spec fn user_tracks_url(
    user_id: Seq<char>,
    client_id: Seq<char>,
    next_href: Option<Seq<char>>,
) -> Seq<char> {
    match next_href {
        Some(next) => client_id_appended(next, client_id),
        None => "https://api-v2.soundcloud.com/users/"@ + url_encoded(user_id)
            + "/tracks?linked_partitioning=true&page_size=50&client_id="@ + url_encoded(client_id),
    }
}

/// Whichever page is asked for, the client id is among the parameters of its
/// URL, and the place in the list that the page before named is kept.
pub proof fn law_page_url_has_client_id(
    user_id: Seq<char>,
    client_id: Seq<char>,
    next_href: Option<Seq<char>>,
)
    ensures
        contains_text(user_tracks_url(user_id, client_id, next_href), "client_id="@),
        next_href matches Some(next) ==> next.is_prefix_of(
            user_tracks_url(user_id, client_id, next_href),
        ),
{
    reveal_strlit("client_id=");
    reveal_strlit("/tracks?linked_partitioning=true&page_size=50&client_id=");
    let url = user_tracks_url(user_id, client_id, next_href);
    let mark = "client_id="@;
    match next_href {
        Some(next) => {
            if !contains_text(next, mark) {
                assert(url.subrange(next.len() as int + 1, next.len() as int + 1 + mark.len()) =~= mark);
                assert(crate::text::occurs_at(url, mark, next.len() as int + 1));
            }
            assert(next =~= url.take(next.len() as int));
        },
        None => {
            let front = "https://api-v2.soundcloud.com/users/"@ + url_encoded(user_id);
            let middle = "/tracks?linked_partitioning=true&page_size=50&client_id="@;
            let at = front.len() + middle.len() - mark.len();
            assert(url.subrange(at, at + mark.len()) =~= mark);
            assert(crate::text::occurs_at(url, mark, at));
        },
    }
}

/// A URL is given a client id at most once. One that has any stays as it is;
/// any other goes on with the client id as a further parameter. What comes
/// out starts with the URL, has a client id, and is not given another.
pub proof fn law_client_id_is_appended_once(url: Seq<char>, first: Seq<char>, second: Seq<char>)
    ensures
        ({
            let r = client_id_appended(url, first);
            let separator = if contains_text(url, "?"@) {
                "&"@
            } else {
                "?"@
            };
            &&& url.is_prefix_of(r)
            &&& contains_text(r, "client_id="@)
            &&& client_id_appended(r, second) == r
            &&& r == url <==> contains_text(url, "client_id="@)
            &&& !contains_text(url, "client_id="@) ==> r == url + separator + "client_id="@
                + url_encoded(first)
        }),
{
    reveal_strlit("&");
    reveal_strlit("?");
    law_page_url_has_client_id(Seq::empty(), first, Some(url));
    let r = client_id_appended(url, first);
    if !contains_text(url, "client_id="@) {
        assert("&"@ =~= seq!['&']);
        assert("?"@ =~= seq!['?']);
        assert(r.len() > url.len());
    }
}

/// A template URL goes on with the client id as a further parameter, whatever
/// parameters it has.
pub proof fn law_template_url_gets_client_id(url: Seq<char>, client_id: Seq<char>)
    ensures
        url.contains('?') ==> with_client_id(url, client_id) == url + "&client_id="@ + url_encoded(
            client_id,
        ),
        !url.contains('?') ==> with_client_id(url, client_id) == url + "?client_id="@
            + url_encoded(client_id),
{
    reveal_strlit("?");
    reveal_strlit("client_id=");
    reveal_strlit("&client_id=");
    reveal_strlit("?client_id=");
    assert("?"@ =~= seq!['?']);
    assert("&client_id="@ =~= seq!['&'] + "client_id="@);
    assert("?client_id="@ =~= seq!['?'] + "client_id="@);
    if url.contains('?') {
        let i = choose|i: int| 0 <= i < url.len() && url[i] == '?';
        assert(url.subrange(i, i + 1) =~= "?"@);
        assert(crate::text::occurs_at(url, "?"@, i));
    } else if contains_text(url, "?"@) {
        let i = choose|i: int| crate::text::occurs_at(url, "?"@, i);
        assert(url.subrange(i, i + 1)[0] == url[i]);
    }
    assert(with_client_id(url, client_id) =~= url + (seq![query_separator(url)] + "client_id="@)
        + url_encoded(client_id));
}

/// The `/resolve` URL carries the public URL and the client id as parameters
/// that decode to them, byte for byte: neither is changed, and neither can run
/// into the other. So no two public URLs make one `/resolve` URL.
pub proof fn law_resolve_url_carries_the_url(url: Seq<char>, client_id: Seq<char>)
    ensures
        exists|p: Seq<char>, q: Seq<char>|
            {
                &&& resolve_url(url, client_id)
                    == #[trigger] ("https://api-v2.soundcloud.com/resolve?url="@ + p
                    + "&client_id="@ + q)
                &&& !p.contains('&')
                &&& percent_decoded(p) == encode_utf8(url)
                &&& percent_decoded(q) == encode_utf8(client_id)
            },
        forall|other: Seq<char>| #[trigger]
            resolve_url(other, client_id) == resolve_url(url, client_id) ==> other == url,
{
    let p = url_encoded(url);
    let q = url_encoded(client_id);
    law_percent_decoding_undoes_encoding(encode_utf8(url));
    law_percent_decoding_undoes_encoding(encode_utf8(client_id));
    let head = "https://api-v2.soundcloud.com/resolve?url="@;
    let middle = "&client_id="@;
    if p.contains('&') {
        let i = choose|i: int| 0 <= i < p.len() && p[i] == '&';
        law_encoded_alphabet(encode_utf8(url), i);
    }
    assert(resolve_url(url, client_id) == head + p + middle + q);
    assert forall|other: Seq<char>| #[trigger]
        resolve_url(other, client_id) == resolve_url(url, client_id) implies other == url by {
        let o = url_encoded(other);
        let a = head + o + middle + q;
        let b = head + p + middle + q;
        assert(a.len() == b.len());
        assert(a.subrange(head.len() as int, head.len() as int + o.len()) =~= o);
        assert(b.subrange(head.len() as int, head.len() as int + p.len()) =~= p);
        law_url_encoding_is_injective(other, url);
    }
}

/// The URL of the first page carries the user and the client id as parts that
/// decode to them, byte for byte.
pub proof fn law_first_page_url_carries_the_user(user_id: Seq<char>, client_id: Seq<char>)
    ensures
        exists|p: Seq<char>, q: Seq<char>|
            {
                &&& user_tracks_url(user_id, client_id, None)
                    == #[trigger] ("https://api-v2.soundcloud.com/users/"@ + p
                    + "/tracks?linked_partitioning=true&page_size=50&client_id="@ + q)
                &&& !p.contains('/') && !p.contains('?')
                &&& percent_decoded(p) == encode_utf8(user_id)
                &&& percent_decoded(q) == encode_utf8(client_id)
            },
{
    let p = url_encoded(user_id);
    let q = url_encoded(client_id);
    law_percent_decoding_undoes_encoding(encode_utf8(user_id));
    law_percent_decoding_undoes_encoding(encode_utf8(client_id));
    assert forall|c: char| c == '/' || c == '?' implies !p.contains(c) by {
        if p.contains(c) {
            let i = choose|i: int| 0 <= i < p.len() && p[i] == c;
            law_encoded_alphabet(encode_utf8(user_id), i);
        }
    }
    assert(user_tracks_url(user_id, client_id, None) == "https://api-v2.soundcloud.com/users/"@ + p
        + "/tracks?linked_partitioning=true&page_size=50&client_id="@ + q);
}

/// Build the `/resolve` request for a public URL, in JSON.
pub fn build_resolve_request(original_url: &str, client_id: &str) -> (r: Result<
    String,
    PluginError,
>)
    ensures
        r is Ok,
        r->Ok_0@ == get_text(resolve_url(original_url@, client_id@)),
{
    let target = urlencode(original_url);
    let id = urlencode(client_id);
    let url = "https://api-v2.soundcloud.com/resolve?url=".to_owned().concat(
        target.as_str(),
    ).concat("&client_id=").concat(id.as_str());
    HttpRequest::get(url).to_json()
}

/// Build the request for a page of a user's tracks, in JSON: the first page,
/// or the one that `next_href` names.
pub fn build_user_tracks_request(
    user_id: &str,
    client_id: &str,
    next_href: Option<&str>,
) -> (r: Result<String, PluginError>)
    ensures
        r is Ok,
        r->Ok_0@ == get_text(
            user_tracks_url(
                user_id@,
                client_id@,
                match next_href {
                    Some(next) => Some(next@),
                    None => None,
                },
            ),
        ),
{
    let url = match next_href {
        Some(next) => append_client_id(next, client_id),
        None => {
            let user = urlencode(user_id);
            let id = urlencode(client_id);
            "https://api-v2.soundcloud.com/users/".to_owned().concat(user.as_str()).concat(
                "/tracks?linked_partitioning=true&page_size=50&client_id=",
            ).concat(id.as_str())
        },
    };
    HttpRequest::get(url).to_json()
}

/// A URL with the client id as its last parameter.
fn push_client_id(url: &str, client_id: &str) -> (r: String)
    ensures
        r@ == with_client_id(url@, client_id@),
{
    let id = urlencode(client_id);
    let mut out = url.to_owned();
    if has_text(url, "?") {
        out.push('&');
    } else {
        out.push('?');
    }
    out.append("client_id=");
    out.append(id.as_str());
    assert(out@ =~= with_client_id(url@, client_id@));
    out
}

/// Add the client id to a URL that has none.
pub fn append_client_id(url: &str, client_id: &str) -> (r: String)
    ensures
        r@ == client_id_appended(url@, client_id@),
{
    if has_text(url, "client_id=") {
        return url.to_owned();
    }
    push_client_id(url, client_id)
}

/// Build the request, in JSON, that resolves a transcoding's template URL
/// to the CDN stream URL. SoundCloud wants the client id as a parameter.
pub fn build_stream_request(transcoding_url: &str, client_id: &str) -> (r: Result<
    String,
    PluginError,
>)
    ensures
        r is Ok,
        r->Ok_0@ == get_text(with_client_id(transcoding_url@, client_id@)),
{
    HttpRequest::get(push_client_id(transcoding_url, client_id)).to_json()
}

// ── SoundCloud resource types ─────────────────────────────────────────────────

/// What `/resolve` answers, by the resource's `kind`. Other kinds than the
/// three known ones are `Unknown`, so that the plugin can say so.
#[derive(Debug)]
pub enum ResolveResponse {
    Track(Track),
    Playlist(Playlist),
    User(User),
    Unknown,
}

/// An identifier: a number in older answers, a text in newer ones.
#[derive(Debug, Clone)]
pub enum ApiId {
    Numeric(u64),
    Text(String),
}

impl ApiId {
    /// The identifier as text.
    pub open spec fn text(self) -> Seq<char> {
        match self {
            ApiId::Numeric(id) => decimal(id as nat),
            ApiId::Text(id) => id@,
        }
    }

    /// The identifier as text: a number in decimal.
    pub fn as_string(&self) -> (r: String)
        ensures
            r@ == self.text(),
    {
        match self {
            ApiId::Numeric(id) => decimal_string(*id),
            ApiId::Text(id) => id.clone(),
        }
    }
}

/// A track.
#[derive(Debug)]
pub struct Track {
    pub id: Option<ApiId>,
    pub urn: Option<String>,
    pub title: String,
    pub duration: Option<u64>,
    pub permalink_url: Option<String>,
    pub artwork_url: Option<String>,
    pub user: Option<TrackUser>,
    pub metadata_artist: Option<String>,
    pub streamable: Option<bool>,
    /// The transcodings that SoundCloud offers, each a template URL that
    /// leads to the CDN stream URL.
    pub media: Option<TrackMedia>,
}

/// The transcodings of a track.
#[derive(Debug)]
pub struct TrackMedia {
    pub transcodings: Vec<Transcoding>,
}

impl Default for TrackMedia {
    fn default() -> (r: Self)
        ensures
            r.transcodings@ == Seq::<Transcoding>::empty(),
    {
        TrackMedia { transcodings: Vec::new() }
    }
}

/// A single transcoding. Its `url` is an API endpoint, not a CDN URL:
/// asked with the client id, it answers with the CDN URL.
#[derive(Debug)]
pub struct Transcoding {
    pub url: String,
    pub format: Option<TranscodingFormat>,
    pub quality: Option<String>,
}

/// The format of a transcoding.
#[derive(Debug)]
pub struct TranscodingFormat {
    pub protocol: String,
    pub mime_type: String,
}

impl Default for TranscodingFormat {
    fn default() -> (r: Self)
        ensures
            r.protocol@ == Seq::<char>::empty(),
            r.mime_type@ == Seq::<char>::empty(),
    {
        TranscodingFormat { protocol: String::new(), mime_type: String::new() }
    }
}

/// The user that uploaded a track.
#[derive(Debug)]
pub struct TrackUser {
    pub username: String,
}

/// A playlist or album.
#[derive(Debug)]
pub struct Playlist {
    pub id: Option<ApiId>,
    pub urn: Option<String>,
    pub title: String,
    pub permalink_url: Option<String>,
    pub artwork_url: Option<String>,
    pub tracks: Vec<Track>,
    pub track_count: Option<u64>,
}

/// An artist profile.
#[derive(Debug)]
pub struct User {
    pub id: Option<ApiId>,
    pub urn: Option<String>,
    pub username: String,
    pub permalink_url: Option<String>,
    pub avatar_url: Option<String>,
}

/// A page of a user's tracks.
#[derive(Debug)]
pub struct TrackCollectionResponse {
    pub collection: Vec<Track>,
    pub next_href: Option<String>,
}

/// The identifier by which a resource is known: its URN, or else its id.
pub open spec fn resource_id(urn: Option<String>, id: Option<ApiId>) -> Option<Seq<char>> {
    match (urn, id) {
        (Some(urn), _) => Some(urn@),
        (None, Some(id)) => Some(id.text()),
        (None, None) => None,
    }
}

/// A resource is known by its URN; one without a URN by its id, a number in
/// decimal; and one without either by none.
pub proof fn law_resource_is_known_by_urn_or_id(urn: Option<String>, id: Option<ApiId>)
    ensures
        urn matches Some(u) ==> resource_id(urn, id) == Some(u@),
        urn is None && id is None ==> resource_id(urn, id) is None,
        urn is None ==> (id matches Some(ApiId::Text(t)) ==> resource_id(urn, id) == Some(t@)),
        urn is None ==> (id matches Some(ApiId::Numeric(n)) ==> resource_id(urn, id) == Some(
            decimal(n as nat),
        )),
{
}

/// The identifier of a track.
pub fn track_resource_id(track: &Track) -> (r: Option<String>)
    ensures
        opt_text(r) == resource_id(track.urn, track.id),
{
    stable_resource_id(track.urn.as_ref(), track.id.as_ref())
}

/// The identifier of a user.
pub fn user_resource_id(user: &User) -> (r: Option<String>)
    ensures
        opt_text(r) == resource_id(user.urn, user.id),
{
    stable_resource_id(user.urn.as_ref(), user.id.as_ref())
}

/// The identifier of a resource: its URN, or else its id.
pub fn stable_resource_id(urn: Option<&String>, id: Option<&ApiId>) -> (r: Option<String>)
    ensures
        opt_text(r) == resource_id(
            match urn {
                Some(urn) => Some(*urn),
                None => None,
            },
            match id {
                Some(id) => Some(*id),
                None => None,
            },
        ),
{
    match urn {
        Some(urn) => Some(urn.clone()),
        None => match id {
            Some(id) => Some(id.as_string()),
            None => None,
        },
    }
}

// ── Transcodings ──────────────────────────────────────────────────────────────

/// The transcoding is streamed by the given protocol.
pub open spec fn has_protocol(t: Transcoding, protocol: Seq<char>) -> bool {
    t.format matches Some(format) && format.protocol@ == protocol
}

/// The first transcoding at or after `from` with the given protocol.
pub open spec fn first_with_protocol(
    ts: Seq<Transcoding>,
    protocol: Seq<char>,
    from: int,
) -> Option<int>
    decreases ts.len() - from,
{
    if from < 0 || from >= ts.len() {
        None
    } else if has_protocol(ts[from], protocol) {
        Some(from)
    } else {
        first_with_protocol(ts, protocol, from + 1)
    }
}

/// The transcoding to take: the first progressive one, or else the first of
/// HLS.
pub open spec fn best_transcoding(ts: Seq<Transcoding>) -> Option<int> {
    match first_with_protocol(ts, "progressive"@, 0) {
        Some(i) => Some(i),
        None => first_with_protocol(ts, "hls"@, 0),
    }
}

/// The first transcoding with the given protocol.
fn find_protocol(transcodings: &[Transcoding], protocol: &str) -> (r: Option<usize>)
    ensures
        match r {
            Some(i) => i < transcodings.len() && first_with_protocol(
                transcodings@,
                protocol@,
                0,
            ) == Some(i as int),
            None => first_with_protocol(transcodings@, protocol@, 0) is None,
        },
{
    let mut i: usize = 0;
    while i < transcodings.len()
        invariant
            i <= transcodings.len(),
            first_with_protocol(transcodings@, protocol@, 0) == first_with_protocol(
                transcodings@,
                protocol@,
                i as int,
            ),
        decreases transcodings.len() - i,
    {
        if let Some(format) = &transcodings[i].format {
            if same_text(format.protocol.as_str(), protocol) {
                return Some(i);
            }
        }
        i = i + 1;
    }
    None
}

/// Select the best transcoding of a track.
///
/// Progressive ones, which are a direct HTTP download, go before HLS. Among
/// those of one protocol the first is taken: SoundCloud mostly provides only
/// one quality level per protocol.
pub fn pick_best_transcoding(transcodings: &[Transcoding]) -> (r: Option<&Transcoding>)
    ensures
        match r {
            Some(t) => best_transcoding(transcodings@) matches Some(i) && 0 <= i
                < transcodings.len() && *t == transcodings@[i],
            None => best_transcoding(transcodings@) is None,
        },
{
    match find_protocol(transcodings, "progressive") {
        Some(i) => Some(&transcodings[i]),
        None => match find_protocol(transcodings, "hls") {
            Some(i) => Some(&transcodings[i]),
            None => None,
        },
    }
}

/// What is picked is the first progressive transcoding wherever there is any,
/// and the first of HLS otherwise; nothing is picked only where there is
/// neither.
pub proof fn law_progressive_is_preferred(ts: Seq<Transcoding>)
    ensures
        match best_transcoding(ts) {
            Some(i) => {
                &&& 0 <= i < ts.len()
                &&& ts[i].format is Some
                &&& ({
                    ||| {
                        &&& ts[i].format->0.protocol@ == "progressive"@
                        &&& forall|k: int|
                            0 <= k < i ==> !((#[trigger] ts[k]).format is Some
                                && ts[k].format->0.protocol@ == "progressive"@)
                    }
                    ||| {
                        &&& ts[i].format->0.protocol@ == "hls"@
                        &&& forall|k: int|
                            0 <= k < i ==> !((#[trigger] ts[k]).format is Some
                                && ts[k].format->0.protocol@ == "hls"@)
                        &&& forall|k: int|
                            0 <= k < ts.len() ==> !((#[trigger] ts[k]).format is Some
                                && ts[k].format->0.protocol@ == "progressive"@)
                    }
                })
            },
            None => forall|k: int|
                0 <= k < ts.len() && (#[trigger] ts[k]).format is Some
                    ==> ts[k].format->0.protocol@ != "progressive"@
                    && ts[k].format->0.protocol@ != "hls"@,
        },
{
    lemma_first_with_protocol(ts, "progressive"@, 0);
    lemma_first_with_protocol(ts, "hls"@, 0);
}

/// The search returns the least index that qualifies.
proof fn lemma_first_with_protocol(ts: Seq<Transcoding>, protocol: Seq<char>, from: int)
    requires
        0 <= from,
    ensures
        match first_with_protocol(ts, protocol, from) {
            Some(i) => {
                &&& from <= i < ts.len()
                &&& has_protocol(ts[i], protocol)
                &&& forall|k: int| from <= k < i ==> !has_protocol(#[trigger] ts[k], protocol)
            },
            None => forall|k: int|
                from <= k < ts.len() ==> !has_protocol(#[trigger] ts[k], protocol),
        },
    decreases ts.len() - from,
{
    if from < ts.len() && !has_protocol(ts[from], protocol) {
        lemma_first_with_protocol(ts, protocol, from + 1);
    }
}

} // verus!
