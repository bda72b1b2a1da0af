//! Discovery of the public SoundCloud `client_id` in the web app's bundles.
//!
//! The web app embeds a non-secret `client_id` in the JavaScript bundles
//! that its homepage loads from `a-v2.sndcdn.com`. The same identifier goes
//! on every `api-v2.soundcloud.com` request. The functions here find the
//! bundle URLs in the homepage and the identifier in a bundle.

use vstd::prelude::*;
use vstd::slice::slice_subrange;

use crate::encoding::{law_safe_text_is_kept, url_encoded};
use crate::json::{json_char, json_chars, json_text};
use crate::text::{
    ascii_alphanumeric, chars_of, find, find_chars, find_from, first_or_end,
    is_ascii_alphanumeric, is_white, lemma_find_from, occurs_at, opt_text, same_text, string_of,
    white,
};

verus! {

/// What every bundle URL starts with.
pub open spec fn asset_prefix() -> Seq<char> {
    "https://a-v2.sndcdn.com/assets/"@
}

/// What every bundle URL ends with.
pub open spec fn js_suffix() -> Seq<char> {
    ".js"@
}

/// What stands before the identifier in a bundle.
pub open spec fn client_id_marker() -> Seq<char> {
    "client_id:\""@
}

/// The characters that end a URL in a page: quotes, angle brackets and white
/// space.
pub open spec fn ends_url(c: char) -> bool {
    c == '"' || c == '\'' || c == '<' || c == '>' || white(c)
}

/// The first position at or after `from` with a character that ends a URL, or
/// the end of the page.
pub open spec fn url_stop(html: Seq<char>, from: int) -> int
    decreases html.len() - from,
{
    if from >= html.len() {
        html.len() as int
    } else if from < 0 || ends_url(html[from]) {
        from
    } else {
        url_stop(html, from + 1)
    }
}

/// The end of the bundle URL whose prefix stands at `start`: that of the first
/// suffix behind the prefix, where one stands before the URL stops.
pub open spec fn asset_end(html: Seq<char>, start: int) -> Option<int> {
    let inner = start + asset_prefix().len();
    match find_from(html.take(url_stop(html, inner)), js_suffix(), inner) {
        Some(suffix) => Some(suffix + js_suffix().len()),
        None => None,
    }
}

/// Where the bundle URLs stand in `html`, from position `from` on. Behind one,
/// the search goes on at its end; behind a prefix without a suffix to it, as
/// that of a stylesheet, it goes on at the end of the prefix.
pub open spec fn asset_spans(html: Seq<char>, from: int) -> Seq<(int, int)>
    decreases html.len() - from,
    when 0 <= from
{
    match find_from(html, asset_prefix(), from) {
        Some(start) => {
            proof {
                reveal_strlit("https://a-v2.sndcdn.com/assets/");
                lemma_find_from(html, asset_prefix(), from);
                lemma_asset_end(html, start);
            }
            match asset_end(html, start) {
                Some(end) => seq![(start, end)] + asset_spans(html, end),
                None => asset_spans(html, start + asset_prefix().len()),
            }
        },
        None => Seq::empty(),
    }
}

/// The bundle URLs that stand in `html`, in order.
pub open spec fn asset_urls(html: Seq<char>, from: int) -> Seq<Seq<char>> {
    asset_spans(html, from).map_values(|span: (int, int)| html.subrange(span.0, span.1))
}

/// The elements of `s`, each where it first occurs.
pub open spec fn distinct(s: Seq<Seq<char>>) -> Seq<Seq<char>>
    decreases s.len(),
{
    if s.len() == 0 {
        Seq::empty()
    } else {
        let before = distinct(s.drop_last());
        if before.contains(s.last()) {
            before
        } else {
            before.push(s.last())
        }
    }
}

/// The texts that `v` holds.
pub open spec fn string_texts(v: Seq<String>) -> Seq<Seq<char>> {
    v.map_values(|s: String| s@)
}

/// The identifier in a bundle: what stands between the first marker and the
/// next quote, unless that is empty or holds anything but ASCII letters and
/// digits.
pub open spec fn client_id_in(js: Seq<char>) -> Option<Seq<char>> {
    match find(js, client_id_marker()) {
        Some(start) => {
            let tail = js.skip(start + client_id_marker().len());
            match find(tail, seq!['"']) {
                Some(end) => {
                    let id = tail.take(end);
                    if is_client_id(id) {
                        Some(id)
                    } else {
                        None
                    }
                },
                None => None,
            }
        },
        None => None,
    }
}

/// A usable identifier: ASCII letters and digits, and at least one.
pub open spec fn is_client_id(id: Seq<char>) -> bool {
    &&& id.len() > 0
    &&& forall|i: int| 0 <= i < id.len() ==> ascii_alphanumeric(#[trigger] id[i])
}

// ── Laws ──────────────────────────────────────────────────────────────────────

/// Each bundle URL occurs once, and whatever was found is among them.
pub proof fn law_each_bundle_url_once(s: Seq<Seq<char>>)
    ensures
        distinct(s).no_duplicates(),
        forall|u: Seq<char>| distinct(s).contains(u) <==> s.contains(u),
    decreases s.len(),
{
    if s.len() > 0 {
        let before = s.drop_last();
        law_each_bundle_url_once(before);
        assert forall|u: Seq<char>| distinct(s).contains(u) <==> s.contains(u) by {
            if s.contains(u) {
                let i = choose|i: int| 0 <= i < s.len() && s[i] == u;
                if i < before.len() {
                    assert(before[i] == u);
                    assert(before.contains(u) <==> distinct(before).contains(u));
                    let k = choose|k: int|
                        0 <= k < distinct(before).len() && distinct(before)[k] == u;
                    assert(distinct(s)[k] == u);
                } else {
                    assert(u == s.last());
                    if !distinct(before).contains(u) {
                        assert(distinct(s)[distinct(before).len() as int] == u);
                    }
                }
            }
            if distinct(s).contains(u) {
                let k = choose|k: int| 0 <= k < distinct(s).len() && distinct(s)[k] == u;
                if k < distinct(before).len() {
                    assert(distinct(before)[k] == u);
                    assert(before.contains(u));
                    let i = choose|i: int| 0 <= i < before.len() && before[i] == u;
                    assert(s[i] == u);
                } else {
                    assert(s[s.len() - 1] == u);
                }
            }
        }
    }
}

/// What is found are bundle URLs that stand in the page: each starts with
/// the asset prefix, ends with the suffix, holds no earlier suffix, and holds
/// no quote, angle bracket or white space.
pub proof fn law_asset_urls_have_shape(html: Seq<char>, from: int, k: int)
    requires
        0 <= from,
        0 <= k < asset_spans(html, from).len(),
    ensures
        ({
            let (start, end) = asset_spans(html, from)[k];
            let inner = start + asset_prefix().len();
            let suffix = end - js_suffix().len();
            &&& from <= start <= end <= html.len()
            &&& occurs_at(html, asset_prefix(), start)
            &&& inner <= suffix
            &&& occurs_at(html, js_suffix(), suffix)
            &&& forall|i: int| inner <= i < suffix ==> !occurs_at(html, js_suffix(), i)
            &&& forall|i: int| start <= i < end ==> !ends_url(#[trigger] html[i])
            &&& asset_end(html, start) == Some(end)
            &&& asset_urls(html, from)[k] == html.subrange(start, end)
        }),
    decreases html.len() - from,
{
    reveal_strlit("https://a-v2.sndcdn.com/assets/");
    lemma_find_from(html, asset_prefix(), from);
    let start = find_from(html, asset_prefix(), from)->0;
    let inner = start + asset_prefix().len();
    lemma_asset_end(html, start);
    match asset_end(html, start) {
        Some(end) => {
            if k > 0 {
                assert(asset_spans(html, from)[k] == asset_spans(html, end)[k - 1]);
                law_asset_urls_have_shape(html, end, k - 1);
            } else {
                assert(asset_spans(html, from)[0] == (start, end));
                assert forall|i: int| start <= i < end implies !ends_url(#[trigger] html[i]) by {
                    if i < inner {
                        assert(html.subrange(start, inner)[i - start] == html[i]);
                        lemma_prefix_chars(i - start);
                    }
                }
            }
        },
        None => {
            law_asset_urls_have_shape(html, inner, k);
        },
    }
}

/// None is missed: where the prefix stands in the page with a suffix behind
/// it, before anything that ends a URL, a URL that is found starts there, or
/// one that is found holds this one as its end.
pub proof fn law_no_asset_url_is_missed(html: Seq<char>, from: int, i: int, j: int)
    requires
        0 <= from <= i,
        occurs_at(html, asset_prefix(), i),
        i + asset_prefix().len() <= j,
        occurs_at(html, js_suffix(), j),
        j + js_suffix().len() <= url_stop(html, i + asset_prefix().len()),
    ensures
        exists|k: int|
            {
                &&& 0 <= k < asset_spans(html, from).len()
                &&& (#[trigger] asset_spans(html, from)[k]).0 <= i
                &&& i + asset_prefix().len() < asset_spans(html, from)[k].1
                &&& asset_end(html, i) == Some(asset_spans(html, from)[k].1)
            },
{
    lemma_asset_end(html, i);
    lemma_asset_found(html, from, i);
}

/// A bundle URL that stands in the page lies in one that is found, and ends
/// with it.
proof fn lemma_asset_found(html: Seq<char>, from: int, i: int)
    requires
        0 <= from <= i,
        occurs_at(html, asset_prefix(), i),
        asset_end(html, i) is Some,
    ensures
        exists|k: int|
            {
                &&& 0 <= k < asset_spans(html, from).len()
                &&& (#[trigger] asset_spans(html, from)[k]).0 <= i
                &&& Some(asset_spans(html, from)[k].1) == asset_end(html, i)
            },
    decreases html.len() - from,
{
    reveal_strlit("https://a-v2.sndcdn.com/assets/");
    lemma_find_from(html, asset_prefix(), from);
    let start = find_from(html, asset_prefix(), from)->0;
    let inner = start + asset_prefix().len();
    assert(start <= i);
    lemma_asset_end(html, start);
    let spans = asset_spans(html, from);
    match asset_end(html, start) {
        Some(end) => {
            assert(spans[0] == (start, end));
            if start < i < end {
                lemma_asset_inside(html, start, i);
            } else if i >= end {
                lemma_asset_found(html, end, i);
                let k = choose|k: int|
                    {
                        &&& 0 <= k < asset_spans(html, end).len()
                        &&& (#[trigger] asset_spans(html, end)[k]).0 <= i
                        &&& Some(asset_spans(html, end)[k].1) == asset_end(html, i)
                    };
                assert(spans[k + 1] == asset_spans(html, end)[k]);
            }
        },
        None => {
            assert(i >= inner) by {
                if start < i < inner {
                    lemma_prefixes_apart(html, start, i);
                }
            }
            lemma_asset_found(html, inner, i);
        },
    }
}

/// Every bundle URL of a page is found: one that stands anywhere in it, made of
/// the prefix, a name and the suffix, is among the URLs found, or is the end of
/// one of them. Where a quote, an angle bracket or white space stands before
/// it, or nothing does, it is itself among them.
pub proof fn law_every_bundle_url_is_found(before: Seq<char>, name: Seq<char>, after: Seq<char>)
    requires
        forall|i: int|
            0 <= i < name.len() ==> (#[trigger] name[i]) != '"' && name[i] != '\'' && name[i] != '<'
                && name[i] != '>' && !white(name[i]),
        forall|i: int| 0 <= i < name.len() ==> !occurs_at(name + ".js"@, ".js"@, i),
    ensures
        ({
            let url = "https://a-v2.sndcdn.com/assets/"@ + name + ".js"@;
            let found = distinct(asset_urls(before + url + after, 0));
            &&& exists|k: int|
                {
                    &&& 0 <= k < found.len()
                    &&& url.len() <= (#[trigger] found[k]).len()
                    &&& found[k].skip(found[k].len() - url.len()) == url
                }
            &&& (before.len() == 0 || before.last() == '"' || before.last() == '\''
                || before.last() == '<' || before.last() == '>' || white(before.last()))
                ==> found.contains(url)
        }),
{
    reveal_strlit("https://a-v2.sndcdn.com/assets/");
    reveal_strlit(".js");
    let url = "https://a-v2.sndcdn.com/assets/"@ + name + ".js"@;
    let html = before + url + after;
    let n = asset_prefix().len() as int;
    let i = before.len() as int;
    let inner = i + n;
    let j = inner + name.len();
    assert(html.subrange(i, inner) =~= asset_prefix());
    assert(html.subrange(j, j + 3) =~= js_suffix());
    assert(occurs_at(html, asset_prefix(), i));
    assert(occurs_at(html, js_suffix(), j));
    lemma_url_stop(html, inner);
    let stop = url_stop(html, inner);
    assert(j + 3 <= stop) by {
        if stop < j {
            assert(html[stop] == name[stop - inner]);
        } else if stop < j + 3 {
            assert(html[stop] == ".js"@[stop - j]);
            assert(stop == j || stop == j + 1 || stop == j + 2);
        }
    }
    law_no_asset_url_is_missed(html, 0, i, j);
    let spans = asset_spans(html, 0);
    let k = choose|k: int|
        {
            &&& 0 <= k < spans.len()
            &&& (#[trigger] spans[k]).0 <= i
            &&& i + asset_prefix().len() < spans[k].1
            &&& asset_end(html, i) == Some(spans[k].1)
        };
    let (start, end) = spans[k];
    lemma_asset_end(html, i);
    let suffix = end - 3;
    if suffix < j {
        let own = name + ".js"@;
        assert(own.subrange(suffix - inner, end - inner) =~= html.subrange(suffix, end));
        assert(occurs_at(own, ".js"@, suffix - inner));
    }
    assert(suffix == j);
    law_asset_urls_have_shape(html, 0, k);
    let all = asset_urls(html, 0);
    let whole = all[k];
    assert(whole == html.subrange(start, end));
    assert(whole.skip(whole.len() - url.len()) =~= url);
    assert(all.contains(whole));
    law_each_bundle_url_once(all);
    assert(distinct(all).contains(whole));
    let m = choose|m: int| 0 <= m < distinct(all).len() && distinct(all)[m] == whole;
    assert(distinct(all)[m].skip(distinct(all)[m].len() - url.len()) == url);
    if before.len() == 0 || ends_url(before.last()) {
        if start < i {
            assert(html[i - 1] == before.last());
        }
        assert(whole =~= url);
    }
}

/// Nothing but bundle URLs of the page is found: each stands in the page,
/// starts with the prefix, ends with the first suffix behind it, and holds no
/// quote, angle bracket or white space.
pub proof fn law_only_bundle_urls_are_found(html: Seq<char>, url: Seq<char>)
    requires
        distinct(asset_urls(html, 0)).contains(url),
    ensures
        "https://a-v2.sndcdn.com/assets/"@.is_prefix_of(url),
        url.len() >= "https://a-v2.sndcdn.com/assets/"@.len() + ".js"@.len(),
        ".js"@.is_suffix_of(url),
        forall|i: int|
            "https://a-v2.sndcdn.com/assets/"@.len() <= i < url.len() - ".js"@.len()
                ==> !occurs_at(url, ".js"@, i),
        forall|i: int|
            0 <= i < url.len() ==> (#[trigger] url[i]) != '"' && url[i] != '\'' && url[i] != '<'
                && url[i] != '>' && !white(url[i]),
        exists|at: int| occurs_at(html, url, at),
{
    reveal_strlit(".js");
    let all = asset_urls(html, 0);
    law_each_bundle_url_once(all);
    assert(all.contains(url));
    let k = choose|k: int| 0 <= k < all.len() && all[k] == url;
    law_asset_urls_have_shape(html, 0, k);
    let (start, end) = asset_spans(html, 0)[k];
    let n = asset_prefix().len() as int;
    assert(url == html.subrange(start, end));
    assert(occurs_at(html, url, start));
    assert(url.subrange(0, n) =~= html.subrange(start, start + n));
    assert(asset_prefix() =~= url.take(n));
    assert(".js"@ =~= html.subrange(end - 3, end));
    assert(".js"@ =~= url.subrange(url.len() - 3, url.len() as int));
    assert forall|i: int| n <= i < url.len() - 3 implies !occurs_at(url, ".js"@, i) by {
        if occurs_at(url, ".js"@, i) {
            assert(url.subrange(i, i + 3) =~= html.subrange(start + i, start + i + 3));
            assert(occurs_at(html, js_suffix(), start + i));
        }
    }
    assert forall|i: int| 0 <= i < url.len() implies !ends_url(#[trigger] url[i]) by {
        assert(url[i] == html[start + i]);
    }
}

/// The URLs come in the order of the page, and do not overlap.
pub proof fn law_bundle_urls_in_page_order(html: Seq<char>, from: int, j: int, k: int)
    requires
        0 <= from,
        0 <= j < k < asset_spans(html, from).len(),
    ensures
        asset_spans(html, from)[j].1 <= asset_spans(html, from)[k].0,
    decreases html.len() - from,
{
    reveal_strlit("https://a-v2.sndcdn.com/assets/");
    lemma_find_from(html, asset_prefix(), from);
    let start = find_from(html, asset_prefix(), from)->0;
    lemma_asset_end(html, start);
    match asset_end(html, start) {
        Some(end) => {
            assert(asset_spans(html, from)[k] == asset_spans(html, end)[k - 1]);
            if j > 0 {
                assert(asset_spans(html, from)[j] == asset_spans(html, end)[j - 1]);
                law_bundle_urls_in_page_order(html, end, j - 1, k - 1);
            } else {
                law_asset_urls_have_shape(html, end, k - 1);
            }
        },
        None => {
            law_bundle_urls_in_page_order(html, start + asset_prefix().len(), j, k);
        },
    }
}

/// Of repeated URLs the first counts: each stands in the place of its first
/// occurrence, and places keep their order.
pub proof fn law_first_occurrences_keep_their_order(s: Seq<Seq<char>>, j: int, k: int)
    requires
        0 <= j < k < distinct(s).len(),
    ensures
        exists|a: int, b: int|
            {
                &&& 0 <= a < b < s.len()
                &&& #[trigger] s[a] == distinct(s)[j]
                &&& #[trigger] s[b] == distinct(s)[k]
                &&& forall|m: int| 0 <= m < b ==> #[trigger] s[m] != distinct(s)[k]
            },
    decreases s.len(),
{
    let before = s.drop_last();
    law_each_bundle_url_once(before);
    if k < distinct(before).len() {
        law_first_occurrences_keep_their_order(before, j, k);
        let (a, b) = choose|a: int, b: int|
            {
                &&& 0 <= a < b < before.len()
                &&& #[trigger] before[a] == distinct(before)[j]
                &&& #[trigger] before[b] == distinct(before)[k]
                &&& forall|m: int| 0 <= m < b ==> #[trigger] before[m] != distinct(before)[k]
            };
        assert(s[a] == distinct(s)[j] && s[b] == distinct(s)[k]);
        assert forall|m: int| 0 <= m < b implies #[trigger] s[m] != distinct(s)[k] by {
            assert(s[m] == before[m]);
        }
    } else {
        assert(distinct(before).contains(distinct(s)[j])) by {
            assert(distinct(before)[j] == distinct(s)[j]);
        }
        assert(before.contains(distinct(s)[j]));
        let a = choose|a: int| 0 <= a < before.len() && before[a] == distinct(s)[j];
        let b = s.len() - 1;
        assert(s[a] == distinct(s)[j] && s[b] == distinct(s)[k]);
        assert forall|m: int| 0 <= m < b implies #[trigger] s[m] != distinct(s)[k] by {
            assert(s[m] == before[m]);
            if before[m] == s.last() {
                assert(before.contains(s.last()));
            }
        }
    }
}

/// The characters up to the stop end no URL, and the one at it does.
proof fn lemma_url_stop(html: Seq<char>, from: int)
    requires
        0 <= from <= html.len(),
    ensures
        from <= url_stop(html, from) <= html.len(),
        forall|i: int| from <= i < url_stop(html, from) ==> !ends_url(#[trigger] html[i]),
        url_stop(html, from) < html.len() ==> ends_url(html[url_stop(html, from)]),
    decreases html.len() - from,
{
    if from < html.len() && !ends_url(html[from]) {
        lemma_url_stop(html, from + 1);
    }
}

/// A bundle URL ends with its first suffix, and there is one exactly where a
/// suffix stands before anything that ends a URL.
pub proof fn lemma_asset_end(html: Seq<char>, start: int)
    requires
        occurs_at(html, asset_prefix(), start),
    ensures
        ({
            let inner = start + asset_prefix().len();
            match asset_end(html, start) {
                Some(end) => {
                    let suffix = end - js_suffix().len();
                    &&& inner <= suffix < end <= html.len()
                    &&& occurs_at(html, js_suffix(), suffix)
                    &&& forall|i: int| inner <= i < suffix ==> !occurs_at(html, js_suffix(), i)
                    &&& forall|i: int| inner <= i < end ==> !ends_url(#[trigger] html[i])
                },
                None => forall|i: int|
                    inner <= i && #[trigger] occurs_at(html, js_suffix(), i) ==> i
                        + js_suffix().len() > url_stop(html, inner),
            }
        }),
{
    reveal_strlit(".js");
    let inner = start + asset_prefix().len();
    let stop = url_stop(html, inner);
    lemma_url_stop(html, inner);
    let run = html.take(stop);
    lemma_find_from(run, js_suffix(), inner);
    assert forall|i: int| inner <= i && i + 3 <= stop implies occurs_at(run, js_suffix(), i)
        == #[trigger] occurs_at(html, js_suffix(), i) by {
        assert(run.subrange(i, i + 3) =~= html.subrange(i, i + 3));
    }
    if let Some(suffix) = find_from(run, js_suffix(), inner) {
        assert(occurs_at(run, js_suffix(), suffix));
        assert(occurs_at(html, js_suffix(), suffix));
        assert forall|i: int| inner <= i < suffix implies !occurs_at(html, js_suffix(), i) by {
            assert(!occurs_at(run, js_suffix(), i));
        }
    } else {
        assert forall|i: int| inner <= i && #[trigger] occurs_at(html, js_suffix(), i) implies i
            + js_suffix().len() > stop by {
            if i + 3 <= stop {
                assert(!occurs_at(run, js_suffix(), i));
            }
        }
    }
}

/// No character of the prefix ends a URL, none is the `j` of a suffix, and
/// only the first can start another prefix.
proof fn lemma_prefix_chars(k: int)
    requires
        0 <= k < asset_prefix().len(),
    ensures
        !ends_url(asset_prefix()[k]),
        asset_prefix()[k] != 'j',
        k > 0 ==> asset_prefix()[k] != 'h',
{
    reveal_strlit("https://a-v2.sndcdn.com/assets/");
    if k < 10 {
        assert(k == 0 || k == 1 || k == 2 || k == 3 || k == 4 || k == 5 || k == 6 || k == 7 || k
            == 8 || k == 9);
    } else if k < 20 {
        assert(k == 10 || k == 11 || k == 12 || k == 13 || k == 14 || k == 15 || k == 16 || k
            == 17 || k == 18 || k == 19);
    } else {
        assert(k == 20 || k == 21 || k == 22 || k == 23 || k == 24 || k == 25 || k == 26 || k
            == 27 || k == 28 || k == 29 || k == 30);
    }
}

/// Two prefixes do not overlap.
proof fn lemma_prefixes_apart(html: Seq<char>, start: int, i: int)
    requires
        occurs_at(html, asset_prefix(), start),
        occurs_at(html, asset_prefix(), i),
        start < i,
    ensures
        start + asset_prefix().len() <= i,
{
    reveal_strlit("https://a-v2.sndcdn.com/assets/");
    let n = asset_prefix().len();
    if i < start + n {
        assert(html.subrange(i, i + n)[0] == html[i]);
        assert(html.subrange(start, start + n)[i - start] == html[i]);
        lemma_prefix_chars(i - start);
    }
}

/// A prefix inside a bundle URL ends with the suffix of that URL.
proof fn lemma_asset_inside(html: Seq<char>, start: int, i: int)
    requires
        occurs_at(html, asset_prefix(), start),
        occurs_at(html, asset_prefix(), i),
        asset_end(html, start) is Some,
        start < i < asset_end(html, start)->0,
    ensures
        asset_end(html, i) == asset_end(html, start),
{
    reveal_strlit("https://a-v2.sndcdn.com/assets/");
    reveal_strlit(".js");
    let n = asset_prefix().len() as int;
    lemma_asset_end(html, start);
    lemma_asset_end(html, i);
    lemma_prefixes_apart(html, start, i);
    let end = asset_end(html, start)->0;
    let suffix = end - 3;
    let inner = i + n;
    let mark = html.subrange(suffix, suffix + 3);
    assert(mark[0] == html[suffix] && mark[1] == html[suffix + 1] && mark[2] == html[suffix + 2]);
    let own = html.subrange(i, i + n);
    assert(own[0] == html[i]);
    assert(i <= suffix);
    if suffix < inner {
        assert(own[suffix - i] == html[suffix]);
        if suffix + 1 < inner {
            assert(own[suffix + 1 - i] == html[suffix + 1]);
            lemma_prefix_chars(suffix + 1 - i);
        }
        assert(own[n - 1] == '/');
        assert(false);
    }
    lemma_url_stop(html, inner);
    assert(end <= url_stop(html, inner));
    let found = asset_end(html, i);
    assert(found is Some);
    let own_suffix = found->0 - 3;
    if own_suffix < suffix {
        assert(!occurs_at(html, js_suffix(), own_suffix));
    } else if own_suffix > suffix {
        assert(!occurs_at(html, js_suffix(), suffix));
    }
}

/// Whatever is found in a bundle is a usable identifier.
pub proof fn law_client_id_is_usable(js: Seq<char>)
    requires
        client_id_in(js) is Some,
    ensures
        is_client_id(client_id_in(js)->0),
{
}

/// A well-formed literal is found: whatever stands before the first marker,
/// and whatever stands behind the quote, an identifier of one or more ASCII
/// letters and digits between them is the answer, exactly as it stands.
pub proof fn law_well_formed_literal_is_found(before: Seq<char>, id: Seq<char>, rest: Seq<char>)
    requires
        forall|i: int| !occurs_at(before, "client_id:\""@, i),
        id.len() > 0,
        forall|i: int|
            0 <= i < id.len() ==> ('0' <= #[trigger] id[i] <= '9' || 'A' <= id[i] <= 'Z' || 'a'
                <= id[i] <= 'z'),
    ensures
        client_id_in(before + "client_id:\""@ + id + "\""@ + rest) == Some(id),
{
    assert forall|i: int| 0 <= i < id.len() implies #[trigger] id[i] != '"' by {}
    lemma_literal(before, id, rest);
}

/// A literal that is empty, or holds any other character, is no identifier,
/// and hides those behind it.
pub proof fn law_malformed_literal_is_rejected(before: Seq<char>, value: Seq<char>, rest: Seq<char>)
    requires
        forall|i: int| !occurs_at(before, "client_id:\""@, i),
        !value.contains('"'),
        value.len() == 0 || exists|i: int|
            0 <= i < value.len() && !('0' <= #[trigger] value[i] <= '9' || 'A' <= value[i] <= 'Z'
                || 'a' <= value[i] <= 'z'),
    ensures
        client_id_in(before + "client_id:\""@ + value + "\""@ + rest) is None,
{
    lemma_literal(before, value, rest);
}

/// Without a marker, or without a quote behind the first one, there is nothing
/// to find.
pub proof fn law_no_identifier_without_literal(before: Seq<char>, open: Seq<char>)
    requires
        forall|i: int| !occurs_at(before, "client_id:\""@, i),
        !open.contains('"'),
    ensures
        client_id_in(before) is None,
        client_id_in(before + "client_id:\""@ + open) is None,
{
    let js = before + "client_id:\""@ + open;
    lemma_find_from(before, client_id_marker(), 0);
    lemma_first_marker(before, open);
    let tail = js.skip(before.len() as int + client_id_marker().len());
    assert(tail =~= open);
    lemma_find_from(open, seq!['"'], 0);
    if let Some(end) = find(open, seq!['"']) {
        assert(open.subrange(end, end + 1)[0] == '"');
        assert(open[end] == '"');
    }
}

/// The first marker is the one behind a text that holds none.
proof fn lemma_first_marker(before: Seq<char>, rest: Seq<char>)
    requires
        forall|i: int| !occurs_at(before, client_id_marker(), i),
    ensures
        find(before + client_id_marker() + rest, client_id_marker()) == Some(before.len() as int),
{
    reveal_strlit("client_id:\"");
    let marker = client_id_marker();
    let n = marker.len() as int;
    let js = before + marker + rest;
    let at = before.len() as int;
    assert(js.subrange(at, at + n) =~= marker);
    assert(occurs_at(js, marker, at));
    lemma_find_from(js, marker, 0);
    let found = find(js, marker)->0;
    if found < at {
        if found + n <= at {
            assert(before.subrange(found, found + n) =~= js.subrange(found, found + n));
            assert(occurs_at(before, marker, found));
        } else {
            let last = found + n - 1;
            assert(js.subrange(found, found + n)[n - 1] == js[last]);
            assert(js[last] == marker[last - at]);
            let m = last - at;
            assert(m == 0 || m == 1 || m == 2 || m == 3 || m == 4 || m == 5 || m == 6 || m == 7
                || m == 8 || m == 9);
        }
        assert(false);
    }
}

/// What is read behind the first marker is what stands before the quote.
proof fn lemma_literal(before: Seq<char>, value: Seq<char>, rest: Seq<char>)
    requires
        forall|i: int| !occurs_at(before, client_id_marker(), i),
        !value.contains('"'),
    ensures
        client_id_in(before + client_id_marker() + value + "\""@ + rest) == if is_client_id(value) {
            Some(value)
        } else {
            None
        },
{
    reveal_strlit("\"");
    let tail = value + "\""@ + rest;
    let js = before + client_id_marker() + value + "\""@ + rest;
    assert(js =~= before + client_id_marker() + tail);
    lemma_first_marker(before, tail);
    assert(js.skip(before.len() as int + client_id_marker().len()) =~= tail);
    let quote = seq!['"'];
    let end = value.len() as int;
    lemma_find_from(tail, quote, 0);
    assert(tail.subrange(end, end + 1) =~= quote);
    assert(occurs_at(tail, quote, end));
    let found = find(tail, quote)->0;
    assert(tail.subrange(found, found + 1)[0] == '"');
    if found < end {
        assert(value[found] == '"');
    }
    assert(found == end);
    assert(tail.take(end) =~= value);
}

/// A usable identifier stands for itself: it goes into a query parameter and
/// into a JSON string as it is.
pub proof fn law_client_id_needs_no_encoding(id: Seq<char>)
    requires
        is_client_id(id),
    ensures
        url_encoded(id) == id,
        json_text(id) == seq!['"'] + id + seq!['"'],
{
    assert forall|i: int| 0 <= i < id.len() implies ('0' <= #[trigger] id[i] <= '9' || 'A' <= id[i]
        <= 'Z' || 'a' <= id[i] <= 'z') by {
        assert(ascii_alphanumeric(id[i]));
    }
    law_safe_text_is_kept(id);
    lemma_plain_json(id);
}

/// Letters and digits are written as they are.
proof fn lemma_alphanumeric_char(c: char)
    requires
        ascii_alphanumeric(c),
    ensures
        json_char(c) == seq![c],
{
}

/// A text of letters and digits is written as it is in JSON.
proof fn lemma_plain_json(s: Seq<char>)
    requires
        forall|i: int| 0 <= i < s.len() ==> ascii_alphanumeric(#[trigger] s[i]),
    ensures
        json_chars(s) == s,
    decreases s.len(),
{
    if s.len() > 0 {
        assert forall|i: int| 0 <= i < s.drop_last().len() implies ascii_alphanumeric(
            #[trigger] s.drop_last()[i],
        ) by {
            assert(s.drop_last()[i] == s[i]);
        }
        lemma_plain_json(s.drop_last());
        lemma_alphanumeric_char(s[s.len() - 1]);
        assert(s.drop_last() + seq![s.last()] =~= s);
    } else {
        assert(json_chars(s) =~= s);
    }
}

// ── Extraction ────────────────────────────────────────────────────────────────

/// Whether `urls` holds `url`.
pub fn holds_text(urls: &Vec<String>, url: &str) -> (r: bool)
    ensures
        r == string_texts(urls@).contains(url@),
{
    let mut i: usize = 0;
    while i < urls.len()
        invariant
            i <= urls.len(),
            forall|k: int| 0 <= k < i ==> (#[trigger] urls@[k])@ != url@,
        decreases urls.len() - i,
    {
        if same_text(urls[i].as_str(), url) {
            assert(string_texts(urls@)[i as int] == url@);
            return true;
        }
        i = i + 1;
    }
    proof {
        if string_texts(urls@).contains(url@) {
            let k = choose|k: int|
                0 <= k < string_texts(urls@).len() && string_texts(urls@)[k] == url@;
            assert(urls@[k]@ == url@);
        }
    }
    false
}

/// Whether `c` ends a URL in a page.
fn is_url_end(c: char) -> (r: bool)
    ensures
        r == ends_url(c),
{
    c == '"' || c == '\'' || c == '<' || c == '>' || is_white(c)
}

/// The first position at or after `from` with a character that ends a URL, or
/// the end of the page.
fn find_url_stop(html: &[char], from: usize) -> (r: usize)
    requires
        from <= html.len(),
    ensures
        r == url_stop(html@, from as int),
        from <= r <= html.len(),
{
    let mut i: usize = from;
    while i < html.len() && !is_url_end(html[i])
        invariant
            from <= i <= html.len(),
            url_stop(html@, i as int) == url_stop(html@, from as int),
        decreases html.len() - i,
    {
        i = i + 1;
    }
    i
}

/// Pull every `https://a-v2.sndcdn.com/assets/<hash>.js` URL out of the
/// SoundCloud homepage HTML, each once, in order. Other assets, such as
/// stylesheets, are passed over: a URL stops at a quote, an angle bracket or
/// white space. Some of the bundles may
/// hold no identifier, so the caller tries them in turn.
pub fn extract_js_urls(html: &str) -> (r: Vec<String>)
    ensures
        string_texts(r@) == distinct(asset_urls(html@, 0)),
        r@.len() == distinct(asset_urls(html@, 0)).len(),
        forall|k: int|
            0 <= k < r@.len() ==> (#[trigger] r@[k])@ == distinct(asset_urls(html@, 0))[k],
{
    let cs = chars_of(html);
    let prefix = chars_of("https://a-v2.sndcdn.com/assets/");
    let suffix = chars_of(".js");
    let mut urls: Vec<String> = Vec::new();
    let mut cursor: usize = 0;
    let ghost all = asset_urls(html@, 0);
    let ghost mut done: Seq<Seq<char>> = Seq::empty();
    assert(all =~= done + asset_urls(html@, 0));
    assert(string_texts(urls@) =~= distinct(done));
    loop
        invariant
            cs@ == html@,
            prefix@ == asset_prefix(),
            suffix@ == js_suffix(),
            cursor <= cs.len(),
            all == done + asset_urls(html@, cursor as int),
            string_texts(urls@) == distinct(done),
        ensures
            all == done,
            string_texts(urls@) == distinct(done),
        decreases cs.len() - cursor,
    {
        proof {
            reveal_strlit("https://a-v2.sndcdn.com/assets/");
            lemma_find_from(html@, asset_prefix(), cursor as int);
        }
        let start = match find_chars(cs.as_slice(), prefix.as_slice(), cursor) {
            Some(i) => i,
            None => {
                assert(all =~= done);
                break;
            },
        };
        assert(start + prefix.len() <= cs.len());
        proof {
            lemma_asset_end(html@, start as int);
        }
        let inner = start + prefix.len();
        let stop = find_url_stop(cs.as_slice(), inner);
        let run = slice_subrange(cs.as_slice(), 0, stop);
        assert(run@ =~= html@.take(stop as int));
        let end = match find_chars(run, suffix.as_slice(), inner) {
            Some(i) => {
                assert(i + suffix.len() <= cs.len());
                i + suffix.len()
            },
            None => {
                assert(asset_spans(html@, cursor as int) == asset_spans(html@, inner as int));
                cursor = inner;
                continue;
            },
        };
        let url = string_of(slice_subrange(cs.as_slice(), start, end));
        proof {
            let rest = asset_urls(html@, end as int);
            assert(asset_urls(html@, cursor as int) =~= seq![url@] + rest);
            assert(all =~= done.push(url@) + rest);
            assert(done.push(url@).drop_last() =~= done);
            done = done.push(url@);
        }
        if !holds_text(&urls, url.as_str()) {
            let ghost before = urls@;
            urls.push(url);
            assert(string_texts(urls@) =~= string_texts(before).push(url@));
        }
        cursor = end;
    }
    assert forall|k: int| 0 <= k < urls@.len() implies (#[trigger] urls@[k])@ == distinct(
        asset_urls(html@, 0),
    )[k] by {
        assert(string_texts(urls@)[k] == urls@[k]@);
    }
    urls
}

/// Find the first `client_id:"<value>"` literal in a bundle and return the
/// value. `None` where no marker is present or what stands behind it is no
/// identifier, so that a malformed bundle is passed over.
pub fn extract_client_id(js: &str) -> (r: Option<String>)
    ensures
        opt_text(r) == client_id_in(js@),
        match client_id_in(js@) {
            Some(id) => r matches Some(found) && found@ == id,
            None => r is None,
        },
{
    let cs = chars_of(js);
    let marker = chars_of("client_id:\"");
    proof {
        lemma_find_from(js@, client_id_marker(), 0);
    }
    let start = match find_chars(cs.as_slice(), marker.as_slice(), 0) {
        Some(i) => i,
        None => {
            return None;
        },
    };
    assert(start + marker.len() <= cs.len());
    let tail = slice_subrange(cs.as_slice(), start + marker.len(), cs.len());
    assert(tail@ =~= js@.skip(start + client_id_marker().len()));
    let end = first_or_end(tail, '"');
    proof {
        lemma_find_from(tail@, seq!['"'], 0);
    }
    if end == tail.len() {
        assert(find(tail@, seq!['"']) is None);
        return None;
    }
    assert(find(tail@, seq!['"']) == Some(end as int));
    let id = slice_subrange(tail, 0, end);
    assert(id@ =~= tail@.take(end as int));
    if end == 0 {
        return None;
    }
    let mut i: usize = 0;
    while i < id.len()
        invariant
            i <= id.len(),
            forall|k: int| 0 <= k < i ==> ascii_alphanumeric(#[trigger] id@[k]),
            id@ == tail@.take(end as int),
            tail@ == js@.skip(start + client_id_marker().len()),
            find(js@, client_id_marker()) == Some(start as int),
            find(tail@, seq!['"']) == Some(end as int),
        decreases id.len() - i,
    {
        if !is_ascii_alphanumeric(id[i]) {
            assert(!ascii_alphanumeric(id@[i as int]));
            return None;
        }
        i = i + 1;
    }
    Some(string_of(id))
}

} // verus!
