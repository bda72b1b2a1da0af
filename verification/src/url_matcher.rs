//! SoundCloud URL detection and classification.
//!
//! URLs are classified by the number of path segments after the user slug:
//!
//! - `soundcloud.com/<user>`: artist profile
//! - `soundcloud.com/<user>/<slug>`: track
//! - `soundcloud.com/<user>/sets/<slug>`: playlist or album
//! - `soundcloud.com/<user>/likes`, and `reposts`, `tracks`, `albums`:
//!   collections, handled as playlists
//!
//! The host has to be on an allowlist, so a SoundCloud address inside
//! another site's path, query or fragment
//! (`example.com/?next=soundcloud.com/foo`, `example.com?@soundcloud.com/foo`)
//! is not taken for one.

use vstd::prelude::*;
use vstd::string::*;

use crate::text::{
    after_last, before_first, behind_last, chars_of, find, find_chars, first_or_end,
    lowercase, lowercase_string, same, same_text, split, split_chars, texts,
};
use crate::text::lemma_find_from;

verus! {

/// Kind of SoundCloud resource identified from a URL.
#[derive(Debug, Clone, Copy, PartialEq, Eq, Structural)]
pub enum UrlKind {
    /// A single track: `soundcloud.com/<user>/<slug>`
    Track,
    /// A playlist, album or likes collection: `soundcloud.com/<user>/sets/<slug>`
    Playlist,
    /// An artist profile: `soundcloud.com/<user>`
    Artist,
    /// Not a recognised SoundCloud URL.
    Unknown,
}

// ── Model ─────────────────────────────────────────────────────────────────────

/// The host in an authority without userinfo: an IPv6 literal with its
/// brackets, or what stands before the port. There is none where the
/// authority, or the part before the port, is empty, or a bracket stays open.
pub open spec fn host_in(authority: Seq<char>) -> Option<Seq<char>> {
    if authority.len() == 0 {
        None
    } else if authority[0] == '[' {
        match find(authority, seq![']']) {
            Some(close) => Some(authority.take(close + 1)),
            None => None,
        }
    } else {
        let host = before_first(authority, ':');
        if host.len() == 0 {
            None
        } else {
            Some(host)
        }
    }
}

/// What follows `://` in a URL: authority, path and query.
pub open spec fn after_scheme(url: Seq<char>) -> Option<Seq<char>> {
    match find(url, "://"@) {
        Some(i) => {
            let scheme = lowercase(url.take(i));
            if scheme == "http"@ || scheme == "https"@ {
                Some(url.skip(i + "://"@.len()))
            } else {
                None
            }
        },
        None => None,
    }
}

/// The characters that end an authority.
pub open spec fn ends_authority(c: char) -> bool {
    c == '/' || c == '?' || c == '#'
}

/// The authority in what follows a scheme: the part before path, query and
/// fragment.
pub open spec fn authority_in(rest: Seq<char>) -> Seq<char> {
    before_first(before_first(before_first(rest, '#'), '?'), '/')
}

/// The lowercased host of an `http` or `https` URL, and what follows the
/// authority. There is none for another scheme or where no host stands.
pub open spec fn host_and_path(url: Seq<char>) -> Option<(Seq<char>, Seq<char>)> {
    match after_scheme(url) {
        Some(rest) => {
            let authority = authority_in(rest);
            match host_in(after_last(authority, '@')) {
                Some(host) => Some((lowercase(host), rest.skip(authority.len() as int))),
                None => None,
            }
        },
        None => None,
    }
}

/// The hosts whose URLs are recognised.
pub open spec fn soundcloud_host(host: Seq<char>) -> bool {
    ||| host == "soundcloud.com"@
    ||| host == "www.soundcloud.com"@
    ||| host == "m.soundcloud.com"@
    ||| host == "on.soundcloud.com"@
}

/// `s` without the slashes at its end.
pub open spec fn without_end_slashes(s: Seq<char>) -> Seq<char>
    decreases s.len(),
{
    if s.len() > 0 && s.last() == '/' {
        without_end_slashes(s.drop_last())
    } else {
        s
    }
}

/// A path without fragment, query and trailing slashes.
pub open spec fn normal_path(path: Seq<char>) -> Seq<char> {
    without_end_slashes(before_first(before_first(path, '#'), '?'))
}

/// The non-empty segments of a path.
pub open spec fn segments(path: Seq<char>) -> Seq<Seq<char>> {
    split(path, '/').filter(|piece: Seq<char>| piece.len() > 0)
}

/// The second segments that name a collection of a user.
pub open spec fn collection_name(segment: Seq<char>) -> bool {
    ||| segment == "likes"@
    ||| segment == "reposts"@
    ||| segment == "tracks"@
    ||| segment == "albums"@
}

/// The kind of resource that a path names on a recognised host. A link of
/// the shortener host is a single redirect token, which leads to a track.
pub open spec fn kind_on_host(host: Seq<char>, segs: Seq<Seq<char>>) -> UrlKind {
    if host == "on.soundcloud.com"@ {
        if segs.len() == 1 {
            UrlKind::Track
        } else {
            UrlKind::Unknown
        }
    } else if segs.len() == 1 {
        UrlKind::Artist
    } else if segs.len() == 2 {
        if collection_name(segs[1]) {
            UrlKind::Playlist
        } else {
            UrlKind::Track
        }
    } else if segs.len() == 3 && segs[1] == "sets"@ {
        UrlKind::Playlist
    } else {
        UrlKind::Unknown
    }
}

/// The kind of resource that a URL names.
pub open spec fn kind_of(url: Seq<char>) -> UrlKind {
    match host_and_path(url) {
        Some((host, path)) => if soundcloud_host(host) {
            kind_on_host(host, segments(normal_path(path)))
        } else {
            UrlKind::Unknown
        },
        None => UrlKind::Unknown,
    }
}

// ── Laws ──────────────────────────────────────────────────────────────────────

/// `s` holds nothing that ends an authority.
pub open spec fn inside_authority(s: Seq<char>) -> bool {
    forall|i: int| 0 <= i < s.len() ==> !ends_authority(#[trigger] s[i])
}

/// These are the parts of an `http` or `https` URL in order: the scheme; the
/// userinfo with the `@` behind it, or nothing; the host; the port with the
/// colon before it, or nothing; and path, query and fragment, or nothing.
pub open spec fn url_parts(
    scheme: Seq<char>,
    user: Seq<char>,
    host: Seq<char>,
    port: Seq<char>,
    tail: Seq<char>,
) -> bool {
    &&& lowercase(scheme) == "http"@ || lowercase(scheme) == "https"@
    &&& inside_authority(user)
    &&& user.len() > 0 ==> user.last() == '@'
    &&& inside_authority(host)
    &&& plain_host(host)
    &&& inside_authority(port)
    &&& port.len() > 0 ==> port[0] == ':' && !port.contains('@')
    &&& tail.len() > 0 ==> ends_authority(tail[0])
}

/// The URL that parts make.
pub open spec fn url_of(
    scheme: Seq<char>,
    user: Seq<char>,
    host: Seq<char>,
    port: Seq<char>,
    tail: Seq<char>,
) -> Seq<char> {
    scheme + "://"@ + user + host + port + tail
}

/// A URL is recognised only where it is made of parts whose host, in lower
/// case, is one of the four on the allowlist: no text in the userinfo, the
/// path, the query or the fragment can stand in for it.
pub proof fn law_recognised_only_on_allowlist(url: Seq<char>)
    requires
        kind_of(url) != UrlKind::Unknown,
    ensures
        exists|
            scheme: Seq<char>,
            user: Seq<char>,
            host: Seq<char>,
            port: Seq<char>,
            tail: Seq<char>,
        |
            {
                &&& url == #[trigger] url_of(scheme, user, host, port, tail)
                &&& url_parts(scheme, user, host, port, tail)
                &&& soundcloud_host(lowercase(host))
                &&& lowercase(host) == "soundcloud.com"@ || lowercase(host)
                    == "www.soundcloud.com"@ || lowercase(host) == "m.soundcloud.com"@
                    || lowercase(host) == "on.soundcloud.com"@
            },
{
    lemma_find_from(url, "://"@, 0);
    let at = find(url, "://"@)->0;
    let scheme = url.take(at);
    let rest = after_scheme(url)->0;
    lemma_scheme_and_rest(url, at);
    let authority = authority_in(rest);
    lemma_authority_in(rest);
    let tail = rest.skip(authority.len() as int);
    assert(tail.len() > 0 ==> tail[0] == rest[authority.len() as int]);
    let (user, host, port) = lemma_authority_parts(authority);
    assert(url_parts(scheme, user, host, port, tail));
    assert(authority + tail =~= rest);
    lemma_url_of_parts(scheme, user, host, port, tail);
    assert(url == url_of(scheme, user, host, port, tail));
}

/// A URL is its scheme, the mark behind it, and the rest.
proof fn lemma_scheme_and_rest(url: Seq<char>, at: int)
    requires
        crate::text::occurs_at(url, "://"@, at),
    ensures
        url == url.take(at) + "://"@ + url.skip(at + "://"@.len()),
{
    crate::text::law_pattern_parts_text(url, "://"@, at);
}

/// The parts of an authority stand behind one another.
proof fn lemma_url_of_parts(
    scheme: Seq<char>,
    user: Seq<char>,
    host: Seq<char>,
    port: Seq<char>,
    tail: Seq<char>,
)
    ensures
        url_of(scheme, user, host, port, tail) == scheme + "://"@ + ((user + host + port) + tail),
{
    assert(url_of(scheme, user, host, port, tail) =~= scheme + "://"@ + ((user + host + port)
        + tail));
}

/// A host on the allowlist is no IPv6 literal.
proof fn lemma_host_without_bracket(host: Seq<char>)
    requires
        host.len() > 0,
        host[0] == '[',
    ensures
        !soundcloud_host(lowercase(host)),
{
    reveal_strlit("soundcloud.com");
    reveal_strlit("www.soundcloud.com");
    reveal_strlit("m.soundcloud.com");
    reveal_strlit("on.soundcloud.com");
    assert(lowercase(host)[0] == '[');
}

/// An authority with a host on the allowlist is made of userinfo, host and port.
proof fn lemma_authority_parts(authority: Seq<char>) -> (parts: (Seq<char>, Seq<char>, Seq<char>))
    requires
        inside_authority(authority),
        host_in(after_last(authority, '@')) is Some,
        soundcloud_host(lowercase(host_in(after_last(authority, '@'))->0)),
    ensures
        authority == parts.0 + parts.1 + parts.2,
        inside_authority(parts.0) && inside_authority(parts.1) && inside_authority(parts.2),
        parts.0.len() > 0 ==> parts.0.last() == '@',
        plain_host(parts.1),
        soundcloud_host(lowercase(parts.1)),
        parts.2.len() > 0 ==> parts.2[0] == ':' && !parts.2.contains('@'),
{
    let bare = after_last(authority, '@');
    lemma_after_last(authority, '@');
    let user = authority.take(authority.len() - bare.len());
    assert(bare[0] != '[') by {
        if bare[0] == '[' {
            lemma_find_from(bare, seq![']'], 0);
            lemma_host_without_bracket(host_in(bare)->0);
        }
    }
    let host = before_first(bare, ':');
    lemma_before_first(bare, ':');
    let port = bare.skip(host.len() as int);
    assert forall|i: int| 0 <= i < user.len() implies !ends_authority(#[trigger] user[i]) by {
        assert(user[i] == authority[i]);
    }
    assert forall|i: int| 0 <= i < bare.len() implies !ends_authority(#[trigger] bare[i]) by {
        assert(bare[i] == authority[user.len() + i]);
    }
    assert forall|i: int| 0 <= i < host.len() implies !ends_authority(#[trigger] host[i]) && host[i]
        != '@' by {
        assert(host[i] == bare[i]);
    }
    assert forall|i: int| 0 <= i < port.len() implies !ends_authority(#[trigger] port[i]) && port[i]
        != '@' by {
        assert(port[i] == bare[host.len() + i]);
    }
    assert(user.len() > 0 ==> user.last() == authority[user.len() - 1]);
    assert(port.len() > 0 ==> port[0] == bare[host.len() as int]);
    assert(host[0] == bare[0]);
    assert(host + port =~= bare);
    assert(authority =~= user + host + port);
    (user, host, port)
}

/// Query and fragment do not change what a URL is taken for.
pub proof fn law_query_and_fragment_do_not_matter(url: Seq<char>, mark: char, query: Seq<char>)
    requires
        mark == '?' || mark == '#',
        !url.contains('?'),
        !url.contains('#'),
    ensures
        kind_of(url + seq![mark] + query) == kind_of(url),
{
    reveal_strlit("://");
    reveal_strlit("http");
    reveal_strlit("https");
    let tail = seq![mark] + query;
    let long = url + seq![mark] + query;
    assert(long =~= url + tail);
    lemma_find_from(url, "://"@, 0);
    match find(url, "://"@) {
        Some(i) => {
            lemma_find_in_longer(url, tail, "://"@);
            assert(long.take(i) =~= url.take(i));
            let from = i + "://"@.len();
            assert(long.skip(from) =~= url.skip(from) + tail);
            if let Some(rest) = after_scheme(url) {
                lemma_authority_in(rest);
                let authority = authority_in(rest);
                let at = authority.len() as int;
                let path = rest.skip(at);
                assert(rest + tail =~= authority + (path + tail));
                assert((path + tail)[0] == if path.len() > 0 {
                    rest[at]
                } else {
                    mark
                });
                lemma_authority_before(authority, path + tail);
                assert((rest + tail).skip(at) =~= path + tail);
                assert(path + tail =~= path + seq![mark] + query);
                assert forall|c: char| path.contains(c) implies url.contains(c) by {
                    let j = choose|j: int| 0 <= j < path.len() && path[j] == c;
                    assert(url[from + at + j] == c);
                }
                lemma_path_before_marks(path, query, mark);
            }
        },
        None => {
            lemma_find_from(long, "://"@, 0);
            if let Some(j) = find(long, "://"@) {
                assert(long.subrange(j, j + 3)[0] == long[j]);
                assert(long.subrange(j, j + 3)[1] == long[j + 1]);
                assert(long.subrange(j, j + 3)[2] == long[j + 2]);
                if j + 3 <= url.len() {
                    assert(url.subrange(j, j + 3) =~= "://"@);
                    assert(crate::text::occurs_at(url, "://"@, j));
                }
                assert(long[url.len() as int] == mark);
                assert(j > url.len());
                let scheme = lowercase(long.take(j));
                assert(scheme[url.len() as int] == mark);
                if scheme == "http"@ || scheme == "https"@ {
                    assert(scheme.contains(mark));
                    assert(false);
                }
            }
        },
    }
}

/// The scheme and the host count in either case, and neither userinfo nor
/// port counts: the host is found between them, and path, query and fragment
/// behind them.
pub proof fn law_host_stands_between_userinfo_and_port(
    scheme: Seq<char>,
    user: Seq<char>,
    host: Seq<char>,
    port: Seq<char>,
    tail: Seq<char>,
)
    requires
        url_parts(scheme, user, host, port, tail),
    ensures
        host_and_path(url_of(scheme, user, host, port, tail)) == Some((lowercase(host), tail)),
{
    reveal_strlit("://");
    reveal_strlit("http");
    reveal_strlit("https");
    let authority = user + host + port;
    let url = url_of(scheme, user, host, port, tail);
    let at = scheme.len() as int;
    lemma_find_from(url, "://"@, 0);
    assert(url.subrange(at, at + 3) =~= "://"@);
    assert(crate::text::occurs_at(url, "://"@, at));
    assert(find(url, "://"@) is Some);
    let found = find(url, "://"@)->0;
    assert(lowercase(scheme).len() == at);
    if found < at {
        assert(url.subrange(found, found + 3)[0] == url[found]);
        assert(scheme[found] == ':');
        assert(lowercase(scheme)[found] == ':');
        assert(found == 0 || found == 1 || found == 2 || found == 3 || found == 4);
    }
    assert(found == at);
    assert(url.take(at) =~= scheme);
    let rest = url.skip(at + 3);
    assert(after_scheme(url) == Some(rest));
    assert(rest =~= authority + tail);
    assert forall|k: int| 0 <= k < authority.len() implies !ends_authority(
        #[trigger] authority[k],
    ) by {
        if k < user.len() {
            assert(authority[k] == user[k]);
        } else if k < user.len() + host.len() {
            assert(authority[k] == host[k - user.len()]);
        } else {
            assert(authority[k] == port[k - user.len() - host.len()]);
        }
    }
    lemma_authority_before(authority, tail);
    assert(rest.skip(authority.len() as int) =~= tail);
    let bare = host + port;
    assert(!bare.contains('@')) by {
        if bare.contains('@') {
            let k = choose|k: int| 0 <= k < bare.len() && bare[k] == '@';
            if k < host.len() {
                assert(host[k] == '@');
            } else {
                assert(port[k - host.len()] == '@');
            }
        }
    }
    lemma_after_last(authority, '@');
    let behind = after_last(authority, '@');
    assert(authority =~= user + bare);
    if behind.len() > bare.len() {
        assert(behind[behind.len() - bare.len() - 1] == user[user.len() - 1]);
    } else if behind.len() < bare.len() {
        assert(bare[bare.len() - behind.len() - 1] == '@');
    }
    assert(behind =~= bare);
    lemma_before_first(bare, ':');
    let front = before_first(bare, ':');
    assert(bare[0] == host[0]);
    if front.len() > host.len() {
        assert(front[host.len() as int] == port[0]);
    } else if front.len() < host.len() {
        assert(host[front.len() as int] == ':');
    }
    assert(front =~= host);
}

/// A host name: no IPv6 literal, and neither userinfo nor port in it.
pub open spec fn plain_host(host: Seq<char>) -> bool {
    &&& host.len() > 0
    &&& host[0] != '['
    &&& !host.contains('@')
    &&& !host.contains(':')
}

/// A path segment as it is written: not empty, and without slash, query and
/// fragment.
pub open spec fn slug(s: Seq<char>) -> bool {
    &&& s.len() > 0
    &&& !s.contains('/')
    &&& !s.contains('?')
    &&& !s.contains('#')
}

/// The path made of the given segments.
pub open spec fn path_of(slugs: Seq<Seq<char>>) -> Seq<char>
    decreases slugs.len(),
{
    if slugs.len() == 0 {
        Seq::empty()
    } else {
        path_of(slugs.drop_last()).push('/') + slugs.last()
    }
}

/// What a URL is taken for is decided by its host and its path segments
/// alone: slashes at the end of the path, query and fragment, userinfo and
/// port, and the case of scheme and host make no difference.
pub proof fn law_host_and_slugs_decide(
    scheme: Seq<char>,
    user: Seq<char>,
    host: Seq<char>,
    port: Seq<char>,
    slugs: Seq<Seq<char>>,
    slashes: Seq<char>,
    tail: Seq<char>,
)
    requires
        url_parts(scheme, user, host, port, Seq::empty()),
        forall|i: int| 0 <= i < slugs.len() ==> slug(#[trigger] slugs[i]),
        forall|i: int| 0 <= i < slashes.len() ==> #[trigger] slashes[i] == '/',
        tail.len() > 0 ==> tail[0] == '?' || tail[0] == '#',
    ensures
        ({
            let url = url_of(scheme, user, host, port, path_of(slugs) + slashes + tail);
            kind_of(url) == if soundcloud_host(lowercase(host)) {
                kind_on_host(lowercase(host), slugs)
            } else {
                UrlKind::Unknown
            }
        }),
{
    let bare = path_of(slugs) + slashes;
    let path = bare + tail;
    lemma_path_of(slugs);
    assert(path.len() > 0 ==> ends_authority(path[0])) by {
        if slugs.len() > 0 {
            assert(path[0] == path_of(slugs)[0]);
        } else if slashes.len() > 0 {
            assert(path[0] == slashes[0]);
        } else if tail.len() > 0 {
            assert(path[0] == tail[0]);
        }
    }
    law_host_stands_between_userinfo_and_port(scheme, user, host, port, path);
    assert forall|c: char| c == '?' || c == '#' implies !bare.contains(c) by {
        if bare.contains(c) {
            let k = choose|k: int| 0 <= k < bare.len() && bare[k] == c;
            if k < path_of(slugs).len() {
                assert(path_of(slugs)[k] == c);
                assert(path_of(slugs).contains(c));
            } else {
                assert(slashes[k - path_of(slugs).len()] == c);
            }
        }
    }
    if tail.len() == 0 {
        assert(path =~= bare);
        lemma_path_before_marks(bare, Seq::empty(), '?');
    } else {
        assert(path =~= bare + seq![tail[0]] + tail.skip(1));
        lemma_path_before_marks(bare, tail.skip(1), tail[0]);
    }
    lemma_end_slashes(path_of(slugs), slashes);
}

/// The three public hosts alike: one slug is an artist; two are a playlist
/// where the second names a collection, and a track otherwise; three with
/// `sets` in the middle are a playlist; anything else is not recognised. On
/// the shortener host a single slug is a track, and anything else is not
/// recognised. On any other host nothing is.
pub proof fn law_kinds_by_slugs(
    scheme: Seq<char>,
    user: Seq<char>,
    host: Seq<char>,
    port: Seq<char>,
    slugs: Seq<Seq<char>>,
    slashes: Seq<char>,
    tail: Seq<char>,
)
    requires
        url_parts(scheme, user, host, port, Seq::empty()),
        forall|i: int| 0 <= i < slugs.len() ==> slug(#[trigger] slugs[i]),
        forall|i: int| 0 <= i < slashes.len() ==> #[trigger] slashes[i] == '/',
        tail.len() > 0 ==> tail[0] == '?' || tail[0] == '#',
    ensures
        ({
            let kind = kind_of(url_of(scheme, user, host, port, path_of(slugs) + slashes + tail));
            let h = lowercase(host);
            let public = h == "soundcloud.com"@ || h == "www.soundcloud.com"@ || h
                == "m.soundcloud.com"@;
            let short = h == "on.soundcloud.com"@;
            let collection = slugs[1] == "likes"@ || slugs[1] == "reposts"@ || slugs[1]
                == "tracks"@ || slugs[1] == "albums"@;
            &&& public && slugs.len() == 0 ==> kind == UrlKind::Unknown
            &&& public && slugs.len() == 1 ==> kind == UrlKind::Artist
            &&& public && slugs.len() == 2 && collection ==> kind == UrlKind::Playlist
            &&& public && slugs.len() == 2 && !collection ==> kind == UrlKind::Track
            &&& public && slugs.len() == 3 && slugs[1] == "sets"@ ==> kind == UrlKind::Playlist
            &&& public && slugs.len() == 3 && slugs[1] != "sets"@ ==> kind == UrlKind::Unknown
            &&& public && slugs.len() > 3 ==> kind == UrlKind::Unknown
            &&& short && slugs.len() == 1 ==> kind == UrlKind::Track
            &&& short && slugs.len() != 1 ==> kind == UrlKind::Unknown
            &&& !public && !short ==> kind == UrlKind::Unknown
        }),
{
    reveal_strlit("soundcloud.com");
    reveal_strlit("www.soundcloud.com");
    reveal_strlit("m.soundcloud.com");
    reveal_strlit("on.soundcloud.com");
    law_host_and_slugs_decide(scheme, user, host, port, slugs, slashes, tail);
    assert("soundcloud.com"@.len() == 14 && "www.soundcloud.com"@.len() == 18);
    assert("m.soundcloud.com"@.len() == 16 && "on.soundcloud.com"@.len() == 17);
}

/// A slash beside another makes no difference behind the scheme.
pub proof fn law_doubled_slashes_do_not_matter(front: Seq<char>, back: Seq<char>)
    requires
        crate::text::contains_text(front, "://"@),
    ensures
        kind_of(front + "//"@ + back) == kind_of(front + "/"@ + back),
{
    reveal_strlit("/");
    reveal_strlit("//");
    reveal_strlit("://");
    let one = "/"@ + back;
    let two = "//"@ + back;
    assert(front + "/"@ + back =~= front + one);
    assert(front + "//"@ + back =~= front + two);
    crate::text::lemma_contains_is_find(front, "://"@);
    lemma_find_in_longer(front, one, "://"@);
    lemma_find_in_longer(front, two, "://"@);
    lemma_find_from(front, "://"@, 0);
    let i = find(front, "://"@)->0;
    let from = i + 3;
    let rest = front.skip(from);
    assert((front + one).take(i) =~= front.take(i));
    assert((front + two).take(i) =~= front.take(i));
    assert((front + one).skip(from) =~= rest + one);
    assert((front + two).skip(from) =~= rest + two);
    lemma_authority_in(rest);
    let authority = authority_in(rest);
    let n = authority.len() as int;
    let path = rest.skip(n);
    assert(rest + one =~= authority + (path + one));
    assert(rest + two =~= authority + (path + two));
    assert((path + one)[0] == if path.len() > 0 {
        rest[n]
    } else {
        '/'
    });
    assert((path + two)[0] == (path + one)[0]);
    lemma_authority_before(authority, path + one);
    lemma_authority_before(authority, path + two);
    assert((rest + one).skip(n) =~= path + one);
    assert((rest + two).skip(n) =~= path + two);
    assert("/"@ =~= seq!['/']);
    assert("//"@ =~= seq!['/', '/']);
    lemma_doubled_slash(path, back, one, two);
}

/// A slash beside another makes no segment of a path.
proof fn lemma_doubled_slash(path: Seq<char>, back: Seq<char>, one: Seq<char>, two: Seq<char>)
    requires
        one == seq!['/'] + back,
        two == seq!['/', '/'] + back,
    ensures
        segments(normal_path(path + two)) == segments(normal_path(path + one)),
{
    lemma_bare(path);
    lemma_bare(back);
    let bare = before_first(before_first(path, '#'), '?');
    let tail = before_first(before_first(back, '#'), '?');
    let rear = back.skip(tail.len() as int);
    if bare.len() < path.len() {
        let marked = path.skip(bare.len() as int);
        assert(path + one =~= bare + (marked + one));
        assert(path + two =~= bare + (marked + two));
        assert((marked + one)[0] == path[bare.len() as int]);
        assert((marked + two)[0] == path[bare.len() as int]);
        lemma_bare_before(bare, marked + one);
        lemma_bare_before(bare, marked + two);
    } else {
        assert(path =~= bare);
        let short = path.push('/') + tail;
        let long = path.push('/').push('/') + tail;
        assert(path + one =~= short + rear);
        assert(path + two =~= long + rear);
        assert(rear.len() > 0 ==> rear[0] == back[tail.len() as int]);
        assert forall|k: int| 0 <= k < short.len() implies short[k] != '?' && short[k] != '#' by {
            if k < path.len() {
                assert(short[k] == bare[k]);
            } else if k > path.len() {
                assert(short[k] == tail[k - path.len() - 1]);
            }
        }
        assert forall|k: int| 0 <= k < long.len() implies long[k] != '?' && long[k] != '#' by {
            if k < path.len() {
                assert(long[k] == bare[k]);
            } else if k > path.len() + 1 {
                assert(long[k] == tail[k - path.len() - 2]);
            }
        }
        lemma_bare_before(short, rear);
        lemma_bare_before(long, rear);
        lemma_segments_of_trimmed(short);
        lemma_segments_of_trimmed(long);
        lemma_segments_concat(path, tail);
        lemma_segments_concat(path.push('/'), tail);
        lemma_segments_concat(path, Seq::empty());
        assert(path.push('/') + Seq::<char>::empty() =~= path.push('/'));
        lemma_path_of(Seq::empty());
        assert(segments(Seq::empty()) =~= Seq::empty());
        assert(segments(path) + Seq::<Seq<char>>::empty() =~= segments(path));
    }
}

/// What stands before query and fragment holds no mark, and a mark follows it
/// unless it is the whole.
proof fn lemma_bare(s: Seq<char>)
    ensures
        ({
            let bare = before_first(before_first(s, '#'), '?');
            &&& bare.len() <= s.len()
            &&& bare == s.take(bare.len() as int)
            &&& forall|k: int| 0 <= k < bare.len() ==> #[trigger] bare[k] != '?' && bare[k] != '#'
            &&& bare.len() < s.len() ==> s[bare.len() as int] == '?' || s[bare.len() as int] == '#'
        }),
{
    let no_frag = before_first(s, '#');
    let bare = before_first(no_frag, '?');
    lemma_before_first(s, '#');
    lemma_before_first(no_frag, '?');
    assert(bare =~= s.take(bare.len() as int));
    assert forall|k: int| 0 <= k < bare.len() implies #[trigger] bare[k] != '?' && bare[k] != '#' by {
        assert(no_frag[k] == bare[k]);
        assert(bare.contains(bare[k]));
        assert(no_frag.contains(no_frag[k]));
    }
}

/// What stands before the first mark is what stands before query and fragment.
proof fn lemma_bare_before(bare: Seq<char>, tail: Seq<char>)
    requires
        forall|k: int| 0 <= k < bare.len() ==> #[trigger] bare[k] != '?' && bare[k] != '#',
        tail.len() > 0 ==> tail[0] == '?' || tail[0] == '#',
    ensures
        before_first(before_first(bare + tail, '#'), '?') == bare,
{
    let s = bare + tail;
    lemma_bare(s);
    let found = before_first(before_first(s, '#'), '?');
    if found.len() < bare.len() {
        assert(s[found.len() as int] == bare[found.len() as int]);
    } else if found.len() > bare.len() {
        assert(found[bare.len() as int] == tail[0]);
    }
    assert(found =~= bare);
}

/// Text on both sides of a separator splits on its own.
proof fn lemma_split_concat(a: Seq<char>, sep: char, b: Seq<char>)
    ensures
        split(a.push(sep) + b, sep) == split(a, sep) + split(b, sep),
    decreases b.len(),
{
    let whole = a.push(sep) + b;
    crate::text::lemma_split(a, sep);
    if b.len() == 0 {
        assert(whole =~= a.push(sep));
        assert(whole.drop_last() =~= a);
        assert(split(whole, sep) =~= split(a, sep) + split(b, sep));
    } else {
        let shorter = b.drop_last();
        lemma_split_concat(a, sep, shorter);
        crate::text::lemma_split(shorter, sep);
        assert(whole.drop_last() =~= a.push(sep) + shorter);
        assert(whole.last() == b.last());
        assert(split(whole, sep) =~= split(a, sep) + split(b, sep));
    }
}

/// The segments on both sides of a slash are the segments of the whole.
proof fn lemma_segments_concat(a: Seq<char>, b: Seq<char>)
    ensures
        segments(a.push('/') + b) == segments(a) + segments(b),
{
    lemma_split_concat(a, '/', b);
    let keep = |piece: Seq<char>| piece.len() > 0;
    Seq::filter_distributes_over_add(split(a, '/'), split(b, '/'), keep);
}

/// Slashes at the end make no segment.
proof fn lemma_segments_of_trimmed(s: Seq<char>)
    ensures
        segments(without_end_slashes(s)) == segments(s),
    decreases s.len(),
{
    if s.len() > 0 && s.last() == '/' {
        lemma_segments_of_trimmed(s.drop_last());
        lemma_segments_concat(s.drop_last(), Seq::empty());
        assert(s.drop_last().push('/') + Seq::<char>::empty() =~= s);
        lemma_path_of(Seq::empty());
        assert(segments(s.drop_last()) + segments(Seq::empty()) =~= segments(s.drop_last()));
    }
}

/// The path of slugs has these slugs for its segments, starts with a slash,
/// ends without one, and holds no mark.
proof fn lemma_path_of(slugs: Seq<Seq<char>>)
    requires
        forall|i: int| 0 <= i < slugs.len() ==> slug(#[trigger] slugs[i]),
    ensures
        segments(path_of(slugs)) == slugs,
        slugs.len() > 0 ==> path_of(slugs).len() > 0 && path_of(slugs)[0] == '/'
            && path_of(slugs).last() != '/',
        !path_of(slugs).contains('?'),
        !path_of(slugs).contains('#'),
    decreases slugs.len(),
{
    reveal(Seq::filter);
    let keep = |piece: Seq<char>| piece.len() > 0;
    let path = path_of(slugs);
    if slugs.len() == 0 {
        let pieces = split(path, '/');
        assert(pieces.drop_last().filter(keep) =~= Seq::empty());
        assert(segments(path) =~= slugs);
    } else {
        let before = slugs.drop_last();
        let last = slugs.last();
        assert(slug(slugs[slugs.len() - 1]));
        assert forall|i: int| 0 <= i < before.len() implies slug(#[trigger] before[i]) by {
            assert(before[i] == slugs[i]);
        }
        lemma_path_of(before);
        lemma_split_behind(path_of(before), '/', last);
        let pieces = split(path, '/');
        assert(pieces.drop_last() =~= split(path_of(before), '/'));
        assert(segments(path) =~= before.push(last));
        assert(before.push(last) =~= slugs);
        assert(path.last() == last.last());
        if last.last() == '/' {
            assert(last[last.len() - 1] == '/');
        }
        assert(path[0] == '/') by {
            if before.len() > 0 {
                assert(path[0] == path_of(before)[0]);
            } else {
                assert(path_of(before).len() == 0);
            }
        }
        assert forall|c: char| c == '?' || c == '#' implies !path.contains(c) by {
            if path.contains(c) {
                let k = choose|k: int| 0 <= k < path.len() && path[k] == c;
                let n = path_of(before).len();
                if k < n {
                    assert(path_of(before)[k] == c);
                    assert(path_of(before).contains(c));
                } else if k > n {
                    assert(last[k - n - 1] == c);
                    assert(last.contains(c));
                }
            }
        }
    }
}

/// One more separator, and a piece without any behind it, make one more piece.
proof fn lemma_split_behind(s: Seq<char>, sep: char, piece: Seq<char>)
    requires
        !piece.contains(sep),
    ensures
        split(s.push(sep) + piece, sep) == split(s, sep).push(piece),
    decreases piece.len(),
{
    let whole = s.push(sep) + piece;
    if piece.len() == 0 {
        assert(whole =~= s.push(sep));
        assert(whole.drop_last() =~= s);
        assert(piece =~= Seq::empty());
    } else {
        let shorter = piece.drop_last();
        assert(!shorter.contains(sep)) by {
            if shorter.contains(sep) {
                let k = choose|k: int| 0 <= k < shorter.len() && shorter[k] == sep;
                assert(piece[k] == sep);
            }
        }
        lemma_split_behind(s, sep, shorter);
        assert(whole.drop_last() =~= s.push(sep) + shorter);
        assert(whole.last() == piece[piece.len() - 1]);
        assert(split(whole, sep) =~= split(s, sep).push(shorter.push(piece.last())));
        assert(shorter.push(piece.last()) =~= piece);
    }
}

/// Slashes at the end are all taken off.
proof fn lemma_end_slashes(s: Seq<char>, slashes: Seq<char>)
    requires
        s.len() > 0 ==> s.last() != '/',
        forall|i: int| 0 <= i < slashes.len() ==> #[trigger] slashes[i] == '/',
    ensures
        without_end_slashes(s + slashes) == s,
    decreases slashes.len(),
{
    if slashes.len() == 0 {
        assert(s + slashes =~= s);
    } else {
        let whole = s + slashes;
        assert(whole.last() == slashes[slashes.len() - 1]);
        assert(whole.drop_last() =~= s + slashes.drop_last());
        lemma_end_slashes(s, slashes.drop_last());
    }
}

/// A pattern is found where it was, if more text follows.
proof fn lemma_find_in_longer(s: Seq<char>, more: Seq<char>, pat: Seq<char>)
    requires
        find(s, pat) is Some,
    ensures
        find(s + more, pat) == find(s, pat),
{
    let long = s + more;
    lemma_find_from(s, pat, 0);
    lemma_find_from(long, pat, 0);
    let i = find(s, pat)->0;
    assert(long.subrange(i, i + pat.len()) =~= s.subrange(i, i + pat.len()));
    assert(crate::text::occurs_at(long, pat, i));
    let j = find(long, pat)->0;
    if j < i {
        assert(long.subrange(j, j + pat.len()) =~= s.subrange(j, j + pat.len()));
        assert(crate::text::occurs_at(s, pat, j));
    }
}

/// What stands before the first mark holds none, and a mark follows it unless
/// it is the whole text.
proof fn lemma_before_first(s: Seq<char>, c: char)
    ensures
        before_first(s, c).len() <= s.len(),
        before_first(s, c) == s.take(before_first(s, c).len() as int),
        !before_first(s, c).contains(c),
        before_first(s, c).len() < s.len() ==> s[before_first(s, c).len() as int] == c,
{
    lemma_find_from(s, seq![c], 0);
    assert(s.take(s.len() as int) =~= s);
    let front = before_first(s, c);
    if let Some(i) = find(s, seq![c]) {
        assert(s.subrange(i, i + 1)[0] == c);
    }
    if front.contains(c) {
        let k = choose|k: int| 0 <= k < front.len() && front[k] == c;
        assert(s.subrange(k, k + 1) =~= seq![c]);
        assert(crate::text::occurs_at(s, seq![c], k));
    }
}

/// What stands behind the last mark holds none, and a mark precedes it unless
/// it is the whole text.
proof fn lemma_after_last(s: Seq<char>, c: char)
    ensures
        after_last(s, c).len() <= s.len(),
        after_last(s, c) == s.skip(s.len() - after_last(s, c).len()),
        !after_last(s, c).contains(c),
        after_last(s, c).len() < s.len() ==> s[s.len() - after_last(s, c).len() - 1] == c,
{
    assert(seq![c].len() == 1);
    crate::text::lemma_rfind_upto(s, seq![c], s.len() - seq![c].len());
    assert(s.skip(0) =~= s);
    let behind = after_last(s, c);
    if let Some(i) = crate::text::rfind(s, seq![c]) {
        assert(s.subrange(i, i + 1)[0] == c);
    }
    if behind.contains(c) {
        let k = choose|k: int| 0 <= k < behind.len() && behind[k] == c;
        let at = s.len() - behind.len() + k;
        assert(s.subrange(at, at + 1) =~= seq![c]);
        assert(crate::text::occurs_at(s, seq![c], at));
    }
}

/// The authority reaches to the first character that ends one.
proof fn lemma_authority_in(rest: Seq<char>)
    ensures
        authority_in(rest).len() <= rest.len(),
        authority_in(rest) == rest.take(authority_in(rest).len() as int),
        inside_authority(authority_in(rest)),
        authority_in(rest).len() < rest.len() ==> ends_authority(
            rest[authority_in(rest).len() as int],
        ),
{
    let no_frag = before_first(rest, '#');
    let no_query = before_first(no_frag, '?');
    let authority = authority_in(rest);
    lemma_before_first(rest, '#');
    lemma_before_first(no_frag, '?');
    lemma_before_first(no_query, '/');
    assert(authority =~= rest.take(authority.len() as int));
    assert forall|i: int| 0 <= i < authority.len() implies !ends_authority(
        #[trigger] authority[i],
    ) by {
        assert(no_query[i] == authority[i]);
        assert(no_frag[i] == authority[i]);
        assert(authority.contains(authority[i]));
        assert(no_query.contains(no_query[i]));
        assert(no_frag.contains(no_frag[i]));
    }
}

/// The authority is what stands before the first character that ends one.
proof fn lemma_authority_before(authority: Seq<char>, tail: Seq<char>)
    requires
        inside_authority(authority),
        tail.len() > 0 ==> ends_authority(tail[0]),
    ensures
        authority_in(authority + tail) == authority,
{
    let rest = authority + tail;
    lemma_authority_in(rest);
    let found = authority_in(rest);
    if found.len() < authority.len() {
        assert(rest[found.len() as int] == authority[found.len() as int]);
    } else if found.len() > authority.len() {
        assert(found[authority.len() as int] == tail[0]);
    }
    assert(found =~= authority);
}

/// A path without marks is what stands before a query or fragment behind it.
pub proof fn lemma_path_before_marks(path: Seq<char>, query: Seq<char>, mark: char)
    requires
        mark == '?' || mark == '#',
        !path.contains('?'),
        !path.contains('#'),
    ensures
        before_first(before_first(path, '#'), '?') == path,
        before_first(before_first(path + seq![mark] + query, '#'), '?') == path,
{
    let long = path + seq![mark] + query;
    lemma_before_first_none(path, '#');
    lemma_before_first_none(path, '?');
    if mark == '#' {
        lemma_before_first_marked(path, '#', query);
    } else {
        let no_frag = before_first(long, '#');
        lemma_find_from(long, seq!['#'], 0);
        match find(long, seq!['#']) {
            Some(i) => {
                assert(long.subrange(i, i + 1)[0] == '#');
                assert(long[i] == '#');
                assert(i > path.len()) by {
                    if i < path.len() {
                        assert(path[i] == '#');
                    }
                }
                let shorter = query.take(i - path.len() - 1);
                assert(no_frag =~= path + seq!['?'] + shorter);
                lemma_before_first_marked(path, '?', shorter);
            },
            None => {
                lemma_before_first_marked(path, '?', query);
            },
        }
    }
}

/// Without a mark in it, a text stands wholly before the first mark.
proof fn lemma_before_first_none(s: Seq<char>, c: char)
    requires
        !s.contains(c),
    ensures
        before_first(s, c) == s,
{
    lemma_find_from(s, seq![c], 0);
    match find(s, seq![c]) {
        Some(i) => {
            assert(s.subrange(i, i + 1)[0] == c);
            assert(s[i] == c);
        },
        None => {},
    }
}

/// Where the first mark stands behind `s`, `s` is what stands before it.
proof fn lemma_before_first_marked(s: Seq<char>, c: char, rest: Seq<char>)
    requires
        !s.contains(c),
    ensures
        before_first(s + seq![c] + rest, c) == s,
{
    let long = s + seq![c] + rest;
    lemma_find_from(long, seq![c], 0);
    assert(long.subrange(s.len() as int, s.len() as int + 1) =~= seq![c]);
    assert(crate::text::occurs_at(long, seq![c], s.len() as int));
    match find(long, seq![c]) {
        Some(i) => {
            assert(long.subrange(i, i + 1)[0] == c);
            assert(long[i] == c);
            if i < s.len() {
                assert(s[i] == c);
            }
            assert(i == s.len());
            assert(long.take(i) =~= s);
        },
        None => {},
    }
}

// ── Classification ────────────────────────────────────────────────────────────

/// The URL is any form of recognised SoundCloud resource.
pub open spec fn recognised(url: Seq<char>) -> bool {
    kind_of(url) != UrlKind::Unknown
}

/// Tracks, playlists and artists are recognised, and nothing else is.
pub proof fn law_recognised_by_kind(url: Seq<char>)
    ensures
        recognised(url) <==> kind_of(url) == UrlKind::Track || kind_of(url) == UrlKind::Playlist
            || kind_of(url) == UrlKind::Artist,
{
}

/// Returns `true` if the URL is any form of recognised SoundCloud resource.
pub fn is_soundcloud_url(url: &str) -> (r: bool)
    ensures
        r == (kind_of(url@) != UrlKind::Unknown),
        r == recognised(url@),
{
    match classify_url(url) {
        UrlKind::Unknown => false,
        _ => true,
    }
}

/// Classify the URL into a [`UrlKind`].
///
/// The `api.` and `api-v2.` subdomains are not accepted: they are
/// server-side endpoints, not public URLs that a user would paste.
pub fn classify_url(url: &str) -> (r: UrlKind)
    ensures
        r == kind_of(url@),
{
    let (host_lower, path) = match validate_and_split(url) {
        Some(parts) => parts,
        None => {
            return UrlKind::Unknown;
        },
    };
    if !is_soundcloud_host(host_lower.as_str()) {
        return UrlKind::Unknown;
    }
    let segs = path_segments(normalize_path(path));
    let ghost model = texts(segs@);
    assert(model.len() == segs@.len());
    if same_text(host_lower.as_str(), "on.soundcloud.com") {
        return if segs.len() == 1 {
            UrlKind::Track
        } else {
            UrlKind::Unknown
        };
    }
    if segs.len() == 1 {
        UrlKind::Artist
    } else if segs.len() == 2 {
        assert(model[1] == segs@[1]@);
        if is_collection_name(segs[1].as_slice()) {
            UrlKind::Playlist
        } else {
            UrlKind::Track
        }
    } else if segs.len() == 3 {
        assert(model[1] == segs@[1]@);
        let sets = chars_of("sets");
        if same(segs[1].as_slice(), sets.as_slice()) {
            UrlKind::Playlist
        } else {
            UrlKind::Unknown
        }
    } else {
        UrlKind::Unknown
    }
}

/// Whether a second segment names a collection of a user.
fn is_collection_name(segment: &[char]) -> (r: bool)
    ensures
        r == collection_name(segment@),
{
    let likes = chars_of("likes");
    let reposts = chars_of("reposts");
    let tracks = chars_of("tracks");
    let albums = chars_of("albums");
    same(segment, likes.as_slice()) || same(segment, reposts.as_slice()) || same(
        segment,
        tracks.as_slice(),
    ) || same(segment, albums.as_slice())
}

/// The non-empty segments of a path.
fn path_segments(path: &str) -> (r: Vec<Vec<char>>)
    ensures
        texts(r@) == segments(path@),
{
    let cs = chars_of(path);
    let pieces = split_chars(cs.as_slice(), '/');
    let ghost model = split(path@, '/');
    let ghost keep = |piece: Seq<char>| piece.len() > 0;
    let mut out: Vec<Vec<char>> = Vec::new();
    let mut i: usize = 0;
    proof {
        reveal(Seq::filter);
        assert(texts(out@) =~= model.take(0).filter(keep));
    }
    while i < pieces.len()
        invariant
            i <= pieces.len(),
            texts(pieces@) == model,
            keep == (|piece: Seq<char>| piece.len() > 0),
            texts(out@) == model.take(i as int).filter(keep),
        decreases pieces.len() - i,
    {
        proof {
            reveal(Seq::filter);
            assert(model.take(i as int + 1).drop_last() =~= model.take(i as int));
            assert(model[i as int] == pieces@[i as int]@);
        }
        if pieces[i].len() > 0 {
            let ghost before = out@;
            let piece = pieces[i].clone();
            assert(piece@ =~= pieces@[i as int]@);
            out.push(piece);
            assert(texts(out@) =~= texts(before).push(piece@));
        }
        i = i + 1;
    }
    assert(model.take(model.len() as int) =~= model);
    out
}

/// Strip the fragment, the query string and the trailing slashes from what
/// follows the authority of a URL. The fragment goes first, so that both
/// `path?q#frag` and `path#frag?q` lose both.
fn normalize_path(path: &str) -> (r: &str)
    ensures
        r@ == normal_path(path@),
{
    let cs = chars_of(path);
    let frag = first_or_end(cs.as_slice(), '#');
    let no_frag = vstd::slice::slice_subrange(cs.as_slice(), 0, frag);
    assert(no_frag@ =~= before_first(path@, '#'));
    let query = first_or_end(no_frag, '?');
    let ghost bare = before_first(no_frag@, '?');
    assert(path@.take(query as int) =~= bare);
    let mut end: usize = query;
    while end > 0 && cs[end - 1] == '/'
        invariant
            end <= cs.len(),
            cs@ == path@,
            without_end_slashes(path@.take(end as int)) == without_end_slashes(bare),
        decreases end,
    {
        assert(path@.take(end as int).last() == '/');
        assert(path@.take(end as int).drop_last() =~= path@.take(end - 1));
        end = end - 1;
    }
    assert(path@.subrange(0, end as int) =~= path@.take(end as int));
    assert(end > 0 ==> path@.take(end as int).last() == path@[end - 1]);
    path.substring_char(0, end)
}

/// Whether a lowercased host is on the allowlist.
fn is_soundcloud_host(host: &str) -> (r: bool)
    ensures
        r == soundcloud_host(host@),
{
    same_text(host, "soundcloud.com") || same_text(host, "www.soundcloud.com") || same_text(
        host,
        "m.soundcloud.com",
    ) || same_text(host, "on.soundcloud.com")
}

/// Split `scheme://host/path?query` into the lowercased host and what
/// follows the authority, which ends at the first `/`, `?` or `#`. Strips
/// userinfo and port, rejects other schemes than `http` and `https`.
fn validate_and_split(url: &str) -> (r: Option<(String, &str)>)
    ensures
        match r {
            Some((host, path)) => host_and_path(url@) == Some((host@, path@)),
            None => host_and_path(url@) is None,
        },
{
    let cs = chars_of(url);
    let mark = chars_of("://");
    proof {
        lemma_find_from(url@, "://"@, 0);
    }
    let start = match find_chars(cs.as_slice(), mark.as_slice(), 0) {
        Some(i) => i,
        None => {
            return None;
        },
    };
    let scheme_chars = vstd::slice::slice_subrange(cs.as_slice(), 0, start);
    assert(scheme_chars@ =~= url@.take(start as int));
    let scheme = lowercase_string(scheme_chars);
    if !same_text(scheme.as_str(), "http") && !same_text(scheme.as_str(), "https") {
        return None;
    }
    assert(start + mark.len() <= cs.len());
    let rest_at = start + mark.len();
    let rest = vstd::slice::slice_subrange(cs.as_slice(), rest_at, cs.len());
    assert(rest@ =~= url@.skip(rest_at as int));
    let no_frag = vstd::slice::slice_subrange(rest, 0, first_or_end(rest, '#'));
    assert(no_frag@ =~= before_first(rest@, '#'));
    let no_query = vstd::slice::slice_subrange(no_frag, 0, first_or_end(no_frag, '?'));
    assert(no_query@ =~= before_first(no_frag@, '?'));
    let cut = first_or_end(no_query, '/');
    let authority = vstd::slice::slice_subrange(no_query, 0, cut);
    assert(authority@ =~= authority_in(rest@));
    assert(cut <= rest.len());
    let user_end = behind_last(authority, '@');
    let authority_no_user = vstd::slice::slice_subrange(authority, user_end, authority.len());
    assert(authority_no_user@ =~= after_last(authority@, '@'));
    match extract_host(authority_no_user) {
        Some(host) => {
            let tail = url.substring_char(rest_at + cut, cs.len());
            assert(tail@ =~= rest@.skip(authority@.len() as int));
            Some((lowercase_string(host), tail))
        },
        None => None,
    }
}

/// Extract the host portion, without port, from an authority. Knows plain
/// hosts, IPv4 addresses and bracketed IPv6 literals, so that `[::1]:443`
/// does not collapse to `[`.
fn extract_host(authority: &[char]) -> (r: Option<&[char]>)
    ensures
        match r {
            Some(host) => host_in(authority@) == Some(host@),
            None => host_in(authority@) is None,
        },
{
    if authority.len() == 0 {
        return None;
    }
    if authority[0] == '[' {
        let close: [char; 1] = [']'];
        proof {
            assert(close@ =~= seq![']']);
            lemma_find_from(authority@, seq![']'], 0);
        }
        match find_chars(authority, &close, 0) {
            Some(at) => {
                assert(at < authority.len());
                let host = vstd::slice::slice_subrange(authority, 0, at + 1);
                assert(host@ =~= authority@.take(at + 1));
                Some(host)
            },
            None => None,
        }
    } else {
        let end = first_or_end(authority, ':');
        let host = vstd::slice::slice_subrange(authority, 0, end);
        assert(host@ =~= before_first(authority@, ':'));
        if end == 0 {
            None
        } else {
            Some(host)
        }
    }
}

} // verus!
