//! The tracks of an artist, gathered page by page.

use vstd::prelude::*;
use vstd::string::*;

use crate::api::{
    build_user_tracks_request, get_text, user_tracks_url, Track, TrackCollectionResponse, User,
};
use crate::client_id::{holds_text, string_texts};
use crate::error::PluginError;
use crate::text::{blank, is_blank, white};
use crate::{stable_track_link_id, track_key};

verus! {

/// The most pages of an artist's tracks that are asked for.
pub const MAX_ARTIST_TRACK_PAGES: usize = 20;

// ── Model ─────────────────────────────────────────────────────────────────────

/// A track that can be linked to: it has a permalink that is not blank.
pub open spec fn linkable(track: Track) -> bool {
    track.permalink_url matches Some(url) && !blank(url@)
}

/// Some track of `tracks` has the key `key`.
pub open spec fn key_occurs(tracks: Seq<Track>, key: Seq<char>) -> bool {
    exists|i: int| 0 <= i < tracks.len() && track_key(#[trigger] tracks[i]) == key
}

/// The tracks that are kept of those received: of each key the first, where
/// it can be linked to, in the order received.
pub open spec fn kept(received: Seq<Track>) -> Seq<Track>
    decreases received.len(),
{
    if received.len() == 0 {
        Seq::empty()
    } else {
        let before = received.drop_last();
        let track = received.last();
        if key_occurs(before, track_key(track)) || !linkable(track) {
            kept(before)
        } else {
            kept(before).push(track)
        }
    }
}

/// The reference to the next page, unless it is blank.
pub open spec fn next_page(page: TrackCollectionResponse) -> Option<Seq<char>> {
    match page.next_href {
        Some(href) if !blank(href@) => Some(href@),
        _ => None,
    }
}

// ── Laws ──────────────────────────────────────────────────────────────────────

/// Every track that is kept was received, and can be linked to.
pub proof fn law_kept_tracks_are_linkable(received: Seq<Track>, k: int)
    requires
        0 <= k < kept(received).len(),
    ensures
        linkable(kept(received)[k]),
        received.contains(kept(received)[k]),
        kept(received)[k].permalink_url matches Some(url) && exists|i: int|
            0 <= i < url@.len() && !white(#[trigger] url@[i]),
    decreases received.len(),
{
    let before = received.drop_last();
    if k < kept(before).len() {
        law_kept_tracks_are_linkable(before, k);
        let i = choose|i: int| 0 <= i < before.len() && before[i] == kept(before)[k];
        assert(received[i] == kept(received)[k]);
    } else {
        assert(received[received.len() - 1] == kept(received)[k]);
    }
}

/// No two of the tracks that are kept have one key.
pub proof fn law_kept_tracks_are_distinct(received: Seq<Track>, j: int, k: int)
    requires
        0 <= j < k < kept(received).len(),
    ensures
        track_key(kept(received)[j]) != track_key(kept(received)[k]),
    decreases received.len(),
{
    let before = received.drop_last();
    if k < kept(before).len() {
        law_kept_tracks_are_distinct(before, j, k);
    } else {
        law_kept_tracks_are_linkable(before, j);
        let i = choose|i: int| 0 <= i < before.len() && before[i] == kept(before)[j];
        assert(track_key(before[i]) == track_key(kept(received)[j]));
    }
}

/// No track is lost: one that can be linked to, and that is the first with
/// its key, is kept.
pub proof fn law_first_linkable_track_is_kept(received: Seq<Track>, i: int)
    requires
        0 <= i < received.len(),
        received[i].permalink_url matches Some(url) && exists|c: int|
            0 <= c < url@.len() && !white(#[trigger] url@[c]),
        forall|m: int| 0 <= m < i ==> track_key(#[trigger] received[m]) != track_key(received[i]),
    ensures
        kept(received).contains(received[i]),
    decreases received.len(),
{
    let before = received.drop_last();
    assert(linkable(received[i]));
    if i < before.len() {
        assert forall|m: int| 0 <= m < i implies track_key(#[trigger] before[m]) != track_key(
            before[i],
        ) by {
            assert(before[m] == received[m]);
        }
        law_first_linkable_track_is_kept(before, i);
        let k = choose|k: int| 0 <= k < kept(before).len() && kept(before)[k] == received[i];
        assert(kept(received)[k] == received[i]);
    } else {
        assert(!key_occurs(before, track_key(received[i]))) by {
            if key_occurs(before, track_key(received[i])) {
                let m = choose|m: int|
                    0 <= m < before.len() && track_key(#[trigger] before[m]) == track_key(
                        received[i],
                    );
                assert(received[m] == before[m]);
            }
        }
        assert(kept(received)[kept(before).len() as int] == received[i]);
    }
}

/// Each track that is kept is the first with its key, and the tracks stand in
/// the order in which they were received.
pub proof fn law_kept_tracks_come_first_and_in_order(received: Seq<Track>, j: int, k: int)
    requires
        0 <= j <= k < kept(received).len(),
    ensures
        exists|a: int, b: int|
            {
                &&& 0 <= a <= b < received.len()
                &&& j < k ==> a < b
                &&& #[trigger] received[a] == kept(received)[j]
                &&& #[trigger] received[b] == kept(received)[k]
                &&& forall|m: int|
                    0 <= m < b ==> track_key(#[trigger] received[m]) != track_key(received[b])
            },
    decreases received.len(),
{
    let before = received.drop_last();
    if k < kept(before).len() {
        law_kept_tracks_come_first_and_in_order(before, j, k);
        let (a, b) = choose|a: int, b: int|
            {
                &&& 0 <= a <= b < before.len()
                &&& j < k ==> a < b
                &&& #[trigger] before[a] == kept(before)[j]
                &&& #[trigger] before[b] == kept(before)[k]
                &&& forall|m: int|
                    0 <= m < b ==> track_key(#[trigger] before[m]) != track_key(before[b])
            };
        assert(received[a] == kept(received)[j] && received[b] == kept(received)[k]);
        assert forall|m: int| 0 <= m < b implies track_key(#[trigger] received[m]) != track_key(
            received[b],
        ) by {
            assert(before[m] == received[m]);
        }
    } else {
        let b = received.len() - 1;
        assert(received[b] == kept(received)[k]);
        assert forall|m: int| 0 <= m < b implies track_key(#[trigger] received[m]) != track_key(
            received[b],
        ) by {
            assert(before[m] == received[m]);
        }
        if j < k {
            law_kept_tracks_are_linkable(before, j);
            let a = choose|a: int| 0 <= a < before.len() && before[a] == kept(before)[j];
            assert(received[a] == kept(received)[j]);
        }
    }
}

/// The next page is the one that a page names, letter for letter, unless the
/// name is blank.
pub proof fn law_next_page_is_the_one_named(page: TrackCollectionResponse)
    ensures
        next_page(page) is Some <==> (page.next_href matches Some(href) && exists|i: int|
            0 <= i < href@.len() && !white(#[trigger] href@[i])),
        next_page(page) matches Some(next) ==> next == page.next_href->0@,
{
}

/// Pages only add: what was kept of the pages so far stays, in place.
pub proof fn law_kept_tracks_stay(received: Seq<Track>, more: Seq<Track>)
    ensures
        kept(received).is_prefix_of(kept(received + more)),
    decreases more.len(),
{
    if more.len() == 0 {
        assert(received + more =~= received);
    } else {
        assert((received + more).drop_last() =~= received + more.drop_last());
        law_kept_tracks_stay(received, more.drop_last());
    }
}

// ── Gathering ─────────────────────────────────────────────────────────────────

/// An artist's tracks as far as they have been received.
pub struct TrackPager {
    user: User,
    user_id: String,
    client_id: String,
    pages: usize,
    seen: Vec<String>,
    tracks: Vec<Track>,
    received: Ghost<Seq<Track>>,
}

/// What to do after a page: ask for the next one, or stop.
pub enum PageStep {
    Next { href: String, pager: TrackPager },
    Ended { user: User, tracks: Vec<Track> },
}

impl TrackPager {
    /// The artist.
    pub closed spec fn user(self) -> User {
        self.user
    }

    /// The identifier that the artist's pages are asked for by.
    pub closed spec fn user_id(self) -> Seq<char> {
        self.user_id@
    }

    /// The client id that goes on each request.
    pub closed spec fn client_id(self) -> Seq<char> {
        self.client_id@
    }

    /// The number of pages received.
    pub closed spec fn pages(self) -> nat {
        self.pages as nat
    }

    /// The tracks on the pages received.
    pub closed spec fn received(self) -> Seq<Track> {
        self.received@
    }

    #[verifier::type_invariant]
    spec fn inv(self) -> bool {
        &&& self.pages < MAX_ARTIST_TRACK_PAGES
        &&& self.tracks@ == kept(self.received@)
        &&& lists_keys(string_texts(self.seen@), self.received@)
    }

    /// Nothing received yet.
    pub fn start(user: User, user_id: String, client_id: String) -> (r: TrackPager)
        ensures
            r.user() == user,
            r.user_id() == user_id@,
            r.client_id() == client_id@,
            r.pages() == 0,
            r.received() == Seq::<Track>::empty(),
    {
        let seen: Vec<String> = Vec::new();
        let tracks: Vec<Track> = Vec::new();
        assert(tracks@ =~= kept(Seq::empty()));
        assert(string_texts(seen@) =~= Seq::empty());
        TrackPager { user, user_id, client_id, pages: 0, seen, tracks, received: Ghost(Seq::empty()) }
    }

    /// The request for the first page, or for the one that `next_href` names.
    pub fn request(&self, next_href: Option<&str>) -> (r: Result<String, PluginError>)
        ensures
            r is Ok,
            r->Ok_0@ == get_text(
                user_tracks_url(
                    self.user_id(),
                    self.client_id(),
                    match next_href {
                        Some(next) => Some(next@),
                        None => None,
                    },
                ),
            ),
    {
        build_user_tracks_request(self.user_id.as_str(), self.client_id.as_str(), next_href)
    }

    /// Take in a page. Of its tracks, those with a key that occurred before
    /// are passed over, and so are those that cannot be linked to. Goes on to
    /// the next page where the page names one, up to the limit; what has been
    /// gathered by then is the result.
    pub fn absorb(self, page: TrackCollectionResponse) -> (r: PageStep)
        ensures
            next_page(page) is Some && self.pages() + 1 < MAX_ARTIST_TRACK_PAGES ==> (
            r matches PageStep::Next { href, pager } && Some(href@) == next_page(page)
                && pager.user() == self.user() && pager.user_id() == self.user_id()
                && pager.client_id() == self.client_id() && pager.pages() == self.pages() + 1
                && pager.received() == self.received() + page.collection@),
            next_page(page) is None || self.pages() + 1 >= MAX_ARTIST_TRACK_PAGES ==> (
            r matches PageStep::Ended { user, tracks } && user == self.user() && tracks@ == kept(
                self.received() + page.collection@,
            )),
    {
        proof {
            use_type_invariant(&self);
        }
        let TrackPager { user, user_id, client_id, pages, mut seen, mut tracks, received } = self;
        let TrackCollectionResponse { collection, next_href } = page;
        let ghost start = received@;
        let ghost all = collection@;
        assert(start + all.take(0) =~= start);
        for track in it: collection
            invariant
                it.seq() == all,
                tracks@ == kept(start + all.take(it.index() as int)),
                lists_keys(string_texts(seen@), start + all.take(it.index() as int)),
        {
            let ghost so_far = start + all.take(it.index() as int);
            let ghost now = start + all.take(it.index() as int + 1);
            assert(now.drop_last() =~= so_far);
            assert(now.last() == track);
            let key = stable_track_link_id(&track);
            if holds_text(&seen, key.as_str()) {
                proof {
                    lemma_lists_old_key(string_texts(seen@), so_far, track);
                    assert(so_far.push(track) =~= now);
                }
            } else {
                let ghost before = seen@;
                let ghost key_text = key@;
                seen.push(key);
                proof {
                    assert(string_texts(seen@) =~= string_texts(before).push(key_text));
                    lemma_lists_new_key(string_texts(before), so_far, track);
                    assert(so_far.push(track) =~= now);
                }
                let has_link = match &track.permalink_url {
                    Some(url) => !is_blank(url.as_str()),
                    None => false,
                };
                if has_link {
                    tracks.push(track);
                }
            }
        }
        assert(all.take(all.len() as int) =~= all);
        let ghost now = start + all;
        if pages + 1 < MAX_ARTIST_TRACK_PAGES {
            if let Some(href) = next_href {
                if !is_blank(href.as_str()) {
                    let pager = TrackPager {
                        user,
                        user_id,
                        client_id,
                        pages: pages + 1,
                        seen,
                        tracks,
                        received: Ghost(now),
                    };
                    return PageStep::Next { href, pager };
                }
            }
        }
        PageStep::Ended { user, tracks }
    }
}

/// `keys` holds the keys of `tracks`, and no others.
spec fn lists_keys(keys: Seq<Seq<char>>, tracks: Seq<Track>) -> bool {
    forall|key: Seq<char>| #[trigger] keys.contains(key) <==> key_occurs(tracks, key)
}

/// A track with a key that is listed already changes nothing.
proof fn lemma_lists_old_key(keys: Seq<Seq<char>>, tracks: Seq<Track>, track: Track)
    requires
        lists_keys(keys, tracks),
        keys.contains(track_key(track)),
    ensures
        key_occurs(tracks, track_key(track)),
        lists_keys(keys, tracks.push(track)),
{
    let more = tracks.push(track);
    assert forall|key: Seq<char>| #[trigger] keys.contains(key) <==> key_occurs(more, key) by {
        lemma_key_occurs_push(tracks, track, key);
    }
}

/// A track with a new key adds it.
proof fn lemma_lists_new_key(keys: Seq<Seq<char>>, tracks: Seq<Track>, track: Track)
    requires
        lists_keys(keys, tracks),
        !keys.contains(track_key(track)),
    ensures
        !key_occurs(tracks, track_key(track)),
        lists_keys(keys.push(track_key(track)), tracks.push(track)),
{
    let more = tracks.push(track);
    let listed = keys.push(track_key(track));
    assert forall|key: Seq<char>| #[trigger] listed.contains(key) <==> key_occurs(more, key) by {
        lemma_key_occurs_push(tracks, track, key);
        assert(keys.contains(key) <==> key_occurs(tracks, key));
        if listed.contains(key) {
            let i = choose|i: int| 0 <= i < listed.len() && listed[i] == key;
            if i < keys.len() {
                assert(keys[i] == key);
            }
        }
        if keys.contains(key) {
            let i = choose|i: int| 0 <= i < keys.len() && keys[i] == key;
            assert(listed[i] == key);
        }
        assert(listed[keys.len() as int] == track_key(track));
    }
}

/// The keys of a sequence with one more track.
proof fn lemma_key_occurs_push(tracks: Seq<Track>, track: Track, key: Seq<char>)
    ensures
        key_occurs(tracks.push(track), key) <==> key_occurs(tracks, key) || track_key(track)
            == key,
{
    let more = tracks.push(track);
    if key_occurs(more, key) {
        let i = choose|i: int| 0 <= i < more.len() && track_key(#[trigger] more[i]) == key;
        if i < tracks.len() {
            assert(track_key(tracks[i]) == key);
        }
    }
    if key_occurs(tracks, key) {
        let i = choose|i: int| 0 <= i < tracks.len() && track_key(#[trigger] tracks[i]) == key;
        assert(track_key(more[i]) == key);
    }
    assert(more[tracks.len() as int] == track);
}

} // verus!
