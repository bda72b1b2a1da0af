//! The answer to the host, in JSON.

use vstd::prelude::*;
use vstd::string::*;

use crate::error::PluginError;
use crate::json::{
    append_json, append_json_number, append_json_option, array_text, joined, json_number,
    json_option, json_text, lemma_first_member, lemma_next_member, member_text, object_text,
};
use crate::text::{decimal, opt_text};
use crate::{ExtractLinksResponse, LinkModel, MediaLink, ResponseModel};

verus! {

/// A link in JSON. What it does not have is `null`.
pub open spec fn link_text(link: LinkModel) -> Seq<char> {
    "{\"id\":"@ + json_text(link.id) + ",\"title\":"@ + json_text(link.title) + ",\"url\":"@
        + json_text(link.url) + ",\"artist\":"@ + json_option(link.artist) + ",\"duration_ms\":"@
        + json_number(link.duration_ms) + ",\"artwork_url\":"@ + json_option(link.artwork_url)
        + "}"@
}

/// Links in JSON, with commas between them.
pub open spec fn links_text(links: Seq<LinkModel>) -> Seq<char>
    decreases links.len(),
{
    if links.len() == 0 {
        Seq::empty()
    } else if links.len() == 1 {
        link_text(links[0])
    } else {
        links_text(links.drop_last()) + ","@ + link_text(links.last())
    }
}

/// A member of an object that is left out where there is no value.
pub open spec fn optional_member(name: Seq<char>, value: Option<Seq<char>>) -> Seq<char> {
    match value {
        Some(value) => name + json_text(value),
        None => Seq::empty(),
    }
}

/// An answer in JSON.
pub open spec fn response_text(response: ResponseModel) -> Seq<char> {
    "{\"kind\":"@ + json_text(response.kind) + optional_member(",\"title\":"@, response.title)
        + optional_member(",\"artist\":"@, response.artist) + optional_member(
        ",\"artwork_url\":"@,
        response.artwork_url,
    ) + ",\"tracks\":["@ + links_text(response.tracks) + "]}"@
}

/// The text between the brackets, link by link: nothing for none, the link's own
/// text for one, and for each further link a comma and its text.
pub proof fn law_links_are_joined_by_commas(links: Seq<LinkModel>, link: LinkModel)
    ensures
        links_text(Seq::empty()) == Seq::<char>::empty(),
        links.len() == 0 ==> links_text(links.push(link)) == link_text(link),
        links.len() > 0 ==> links_text(links.push(link)) == links_text(links) + ","@ + link_text(
            link,
        ),
{
    assert(links.push(link).drop_last() =~= links);
}

/// The text between the brackets is the texts of the links, each once and in
/// order, with one comma between each two neighbours.
pub proof fn law_links_text_is_every_link(links: Seq<LinkModel>)
    ensures
        links_text(links) == joined(Seq::new(links.len(), |i: int| link_text(links[i]))),
    decreases links.len(),
{
    let items = Seq::new(links.len(), |i: int| link_text(links[i]));
    if links.len() > 1 {
        let before = links.drop_last();
        law_links_text_is_every_link(before);
        assert(items.drop_last() =~= Seq::new(before.len(), |i: int| link_text(before[i])));
    }
}

/// A link is a JSON object with six members: what it has as a string or a
/// number, and `null` for what it does not have.
pub proof fn law_link_in_json(link: MediaLink)
    ensures
        link_text(link@) == object_text(
            seq![
                member_text("id"@, json_text(link.id@)),
                member_text("title"@, json_text(link.title@)),
                member_text("url"@, json_text(link.url@)),
                member_text(
                    "artist"@,
                    match link.artist {
                        Some(artist) => json_text(artist@),
                        None => "null"@,
                    },
                ),
                member_text(
                    "duration_ms"@,
                    match link.duration_ms {
                        Some(n) => decimal(n as nat),
                        None => "null"@,
                    },
                ),
                member_text(
                    "artwork_url"@,
                    match link.artwork_url {
                        Some(url) => json_text(url@),
                        None => "null"@,
                    },
                ),
            ],
        ),
{
    lemma_leads();
    let l = link@;
    let a = member_text("id"@, json_text(l.id));
    let b = member_text("title"@, json_text(l.title));
    let c = member_text("url"@, json_text(l.url));
    let d = member_text("artist"@, json_option(l.artist));
    let e = member_text("duration_ms"@, json_number(l.duration_ms));
    let f = member_text("artwork_url"@, json_option(l.artwork_url));
    let t1 = "{\"id\":"@ + json_text(l.id);
    lemma_first_member("{\"id\":"@, "id"@, json_text(l.id));
    let t2 = t1 + ",\"title\":"@ + json_text(l.title);
    lemma_next_member(t1, seq![a], ",\"title\":"@, "title"@, json_text(l.title));
    let t3 = t2 + ",\"url\":"@ + json_text(l.url);
    lemma_next_member(t2, seq![a].push(b), ",\"url\":"@, "url"@, json_text(l.url));
    let t4 = t3 + ",\"artist\":"@ + json_option(l.artist);
    lemma_next_member(
        t3,
        seq![a].push(b).push(c),
        ",\"artist\":"@,
        "artist"@,
        json_option(l.artist),
    );
    let t5 = t4 + ",\"duration_ms\":"@ + json_number(l.duration_ms);
    lemma_next_member(
        t4,
        seq![a].push(b).push(c).push(d),
        ",\"duration_ms\":"@,
        "duration_ms"@,
        json_number(l.duration_ms),
    );
    lemma_next_member(
        t5,
        seq![a].push(b).push(c).push(d).push(e),
        ",\"artwork_url\":"@,
        "artwork_url"@,
        json_option(l.artwork_url),
    );
    let members = seq![a, b, c, d, e, f];
    assert(members =~= seq![a].push(b).push(c).push(d).push(e).push(f));
    assert(link_text(l) == object_text(members));
    let stated = seq![
        member_text("id"@, json_text(link.id@)),
        member_text("title"@, json_text(link.title@)),
        member_text("url"@, json_text(link.url@)),
        member_text(
            "artist"@,
            match link.artist {
                Some(artist) => json_text(artist@),
                None => "null"@,
            },
        ),
        member_text(
            "duration_ms"@,
            match link.duration_ms {
                Some(n) => decimal(n as nat),
                None => "null"@,
            },
        ),
        member_text(
            "artwork_url"@,
            match link.artwork_url {
                Some(url) => json_text(url@),
                None => "null"@,
            },
        ),
    ];
    assert(stated =~= members);
}

/// What stands before each value.
proof fn lemma_leads()
    ensures
        "{\"id\":"@ == "{"@ + ("\""@ + "id"@ + "\":"@),
        "{\"kind\":"@ == "{"@ + ("\""@ + "kind"@ + "\":"@),
        ",\"title\":"@ == ","@ + ("\""@ + "title"@ + "\":"@),
        ",\"url\":"@ == ","@ + ("\""@ + "url"@ + "\":"@),
        ",\"artist\":"@ == ","@ + ("\""@ + "artist"@ + "\":"@),
        ",\"duration_ms\":"@ == ","@ + ("\""@ + "duration_ms"@ + "\":"@),
        ",\"artwork_url\":"@ == ","@ + ("\""@ + "artwork_url"@ + "\":"@),
        ",\"tracks\":["@ == ","@ + ("\""@ + "tracks"@ + "\":"@) + "["@,
        "]}"@ == "]"@ + "}"@,
{
    reveal_strlit("{");
    reveal_strlit("}");
    reveal_strlit("[");
    reveal_strlit("]");
    reveal_strlit("]}");
    reveal_strlit(",");
    reveal_strlit("\"");
    reveal_strlit("\":");
    reveal_strlit("id");
    reveal_strlit("kind");
    reveal_strlit("title");
    reveal_strlit("url");
    reveal_strlit("artist");
    reveal_strlit("duration_ms");
    reveal_strlit("artwork_url");
    reveal_strlit("tracks");
    reveal_strlit("{\"id\":");
    reveal_strlit("{\"kind\":");
    reveal_strlit(",\"title\":");
    reveal_strlit(",\"url\":");
    reveal_strlit(",\"artist\":");
    reveal_strlit(",\"duration_ms\":");
    reveal_strlit(",\"artwork_url\":");
    reveal_strlit(",\"tracks\":[");
}

/// An answer is a JSON object: the kind; title, artist and artwork where there
/// are any; and an array of all its links, in order.
pub proof fn law_answer_in_json(answer: ExtractLinksResponse)
    ensures
        response_text(answer@) == object_text(
            seq![member_text("kind"@, json_text(answer.kind@))] + (match answer.title {
                Some(title) => seq![member_text("title"@, json_text(title@))],
                None => Seq::empty(),
            }) + (match answer.artist {
                Some(artist) => seq![member_text("artist"@, json_text(artist@))],
                None => Seq::empty(),
            }) + (match answer.artwork_url {
                Some(url) => seq![member_text("artwork_url"@, json_text(url@))],
                None => Seq::empty(),
            }) + seq![
                member_text(
                    "tracks"@,
                    array_text(
                        Seq::new(
                            answer.tracks@.len(),
                            |i: int| link_text(answer.tracks@[i]@),
                        ),
                    ),
                ),
            ],
        ),
{
    lemma_leads();
    let r = answer@;
    let items = Seq::new(answer.tracks@.len(), |i: int| link_text(answer.tracks@[i]@));
    law_links_text_is_every_link(r.tracks);
    assert(Seq::new(r.tracks.len(), |i: int| link_text(r.tracks[i])) =~= items);
    let m1 = seq![member_text("kind"@, json_text(r.kind))];
    let t1 = "{\"kind\":"@ + json_text(r.kind);
    lemma_first_member("{\"kind\":"@, "kind"@, json_text(r.kind));
    let t2 = t1 + optional_member(",\"title\":"@, r.title);
    let m2 = lemma_optional_member(t1, m1, ",\"title\":"@, "title"@, r.title);
    let t3 = t2 + optional_member(",\"artist\":"@, r.artist);
    let m3 = lemma_optional_member(t2, m2, ",\"artist\":"@, "artist"@, r.artist);
    let t4 = t3 + optional_member(",\"artwork_url\":"@, r.artwork_url);
    let m4 = lemma_optional_member(
        t3,
        m3,
        ",\"artwork_url\":"@,
        "artwork_url"@,
        r.artwork_url,
    );
    let lead = ","@ + ("\""@ + "tracks"@ + "\":"@);
    lemma_next_member(t4, m4, lead, "tracks"@, array_text(items));
    lemma_regroup(t4, lead, "["@, links_text(r.tracks), "]"@, "}"@);
    assert(response_text(r) == t4 + lead + array_text(items) + "}"@);
    assert(m4.push(member_text("tracks"@, array_text(items))) =~= m4 + seq![
        member_text("tracks"@, array_text(items)),
    ]);
}

/// Brackets go with what they enclose.
proof fn lemma_regroup(
    text: Seq<char>,
    lead: Seq<char>,
    open: Seq<char>,
    inner: Seq<char>,
    close: Seq<char>,
    end: Seq<char>,
)
    ensures
        text + (lead + open) + inner + (close + end) == text + lead + (open + inner + close) + end,
{
    assert(text + (lead + open) + inner + (close + end) =~= text + lead + (open + inner + close)
        + end);
}

/// The members with one more, where it has a value.
proof fn lemma_optional_member(
    text: Seq<char>,
    members: Seq<Seq<char>>,
    lead: Seq<char>,
    name: Seq<char>,
    value: Option<Seq<char>>,
) -> (more: Seq<Seq<char>>)
    requires
        members.len() > 0,
        text == "{"@ + joined(members),
        lead == ","@ + ("\""@ + name + "\":"@),
    ensures
        more == members + (match value {
            Some(v) => seq![member_text(name, json_text(v))],
            None => Seq::empty(),
        }),
        more.len() > 0,
        text + optional_member(lead, value) == "{"@ + joined(more),
{
    match value {
        Some(v) => {
            let member = member_text(name, json_text(v));
            lemma_next_member(text, members, lead, name, json_text(v));
            assert(members.push(member) =~= members + seq![member]);
            assert(text + lead + json_text(v) =~= text + (lead + json_text(v)));
            members.push(member)
        },
        None => {
            assert(members + Seq::<Seq<char>>::empty() =~= members);
            assert(text + Seq::<char>::empty() =~= text);
            members
        },
    }
}

/// Append a member that is left out where there is no value.
fn append_member(out: &mut String, name: &str, value: &Option<String>) -> (r: Result<
    (),
    serde_json::Error,
>)
    ensures
        r is Ok,
        final(out)@ == old(out)@ + optional_member(name@, opt_text(*value)),
{
    match value {
        Some(value) => {
            out.append(name);
            let r = append_json(out, value.as_str());
            assert(out@ =~= old(out)@ + (name@ + json_text(value@)));
            r
        },
        None => {
            assert(out@ =~= old(out)@ + Seq::<char>::empty());
            Ok(())
        },
    }
}

/// Append a link.
fn append_link(out: &mut String, link: &MediaLink) -> (r: Result<(), serde_json::Error>)
    ensures
        r is Ok,
        final(out)@ == old(out)@ + link_text(link@),
{
    out.append("{\"id\":");
    append_json(out, link.id.as_str())?;
    out.append(",\"title\":");
    append_json(out, link.title.as_str())?;
    out.append(",\"url\":");
    append_json(out, link.url.as_str())?;
    out.append(",\"artist\":");
    append_json_option(out, &link.artist)?;
    out.append(",\"duration_ms\":");
    append_json_number(out, link.duration_ms);
    out.append(",\"artwork_url\":");
    append_json_option(out, &link.artwork_url)?;
    out.append("}");
    assert(out@ =~= old(out)@ + link_text(link@));
    Ok(())
}

/// Append links, with commas between them.
fn append_links(out: &mut String, links: &Vec<MediaLink>) -> (r: Result<(), serde_json::Error>)
    ensures
        r is Ok,
        final(out)@ == old(out)@ + links_text(links@.map_values(|link: MediaLink| link@)),
{
    let ghost model = links@.map_values(|link: MediaLink| link@);
    let mut i: usize = 0;
    assert(out@ =~= old(out)@ + links_text(model.take(0)));
    while i < links.len()
        invariant
            i <= links.len(),
            model == links@.map_values(|link: MediaLink| link@),
            out@ == old(out)@ + links_text(model.take(i as int)),
        decreases links.len() - i,
    {
        let ghost now = model.take(i as int + 1);
        assert(now.drop_last() =~= model.take(i as int));
        assert(now.last() == links@[i as int]@);
        if i > 0 {
            out.append(",");
        }
        append_link(out, &links[i])?;
        assert(out@ =~= old(out)@ + links_text(now));
        i = i + 1;
    }
    assert(model.take(model.len() as int) =~= model);
    Ok(())
}

impl ExtractLinksResponse {
    /// The answer in JSON.
    pub fn to_json(&self) -> (r: Result<String, PluginError>)
        ensures
            r is Ok,
            r->Ok_0@ == response_text(self@),
    {
        let mut out = "{\"kind\":".to_owned();
        append_json(&mut out, self.kind)?;
        append_member(&mut out, ",\"title\":", &self.title)?;
        append_member(&mut out, ",\"artist\":", &self.artist)?;
        append_member(&mut out, ",\"artwork_url\":", &self.artwork_url)?;
        out.append(",\"tracks\":[");
        append_links(&mut out, &self.tracks)?;
        out.append("]}");
        Ok(out)
    }
}

} // verus!
