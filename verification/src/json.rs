//! JSON text of strings, as `serde_json` writes it.

use std::collections::HashMap;

use vstd::prelude::*;
use vstd::string::*;

use crate::text::{decimal, decimal_string, opt_text};

verus! {

/// The error type of `serde_json`, carried through unread.
#[verifier::external_type_specification]
#[verifier::external_body]
pub struct ExJsonError(serde_json::Error);

/// The hexadecimal digit of a value below sixteen, in small letters.
pub open spec fn small_hex(d: int) -> char {
    if d < 10 {
        ((48 + d) as u8) as char
    } else {
        ((87 + d) as u8) as char
    }
}

/// How a character is written inside a JSON string: quote, backslash and
/// the control characters below U+0020 are escaped, the rest stands as it is.
pub open spec fn json_char(c: char) -> Seq<char> {
    if c == '"' {
        seq!['\\', '"']
    } else if c == '\\' {
        seq!['\\', '\\']
    } else if c == '\u{8}' {
        seq!['\\', 'b']
    } else if c == '\t' {
        seq!['\\', 't']
    } else if c == '\n' {
        seq!['\\', 'n']
    } else if c == '\u{c}' {
        seq!['\\', 'f']
    } else if c == '\r' {
        seq!['\\', 'r']
    } else if (c as u32) < 0x20 {
        seq!['\\', 'u', '0', '0', small_hex(c as int / 16), small_hex(c as int % 16)]
    } else {
        seq![c]
    }
}

/// The characters of `s` as they stand between the quotes of a JSON string.
pub open spec fn json_chars(s: Seq<char>) -> Seq<char>
    decreases s.len(),
{
    if s.len() == 0 {
        Seq::empty()
    } else {
        json_chars(s.drop_last()) + json_char(s.last())
    }
}

/// `s` as a JSON string.
pub open spec fn json_text(s: Seq<char>) -> Seq<char> {
    seq!['"'] + json_chars(s) + seq!['"']
}

/// An optional text in JSON.
pub open spec fn json_option(o: Option<Seq<char>>) -> Seq<char> {
    match o {
        Some(s) => json_text(s),
        None => "null"@,
    }
}

/// An optional number in JSON.
pub open spec fn json_number(o: Option<u64>) -> Seq<char> {
    match o {
        Some(n) => decimal(n as nat),
        None => "null"@,
    }
}

/// Items with exactly one comma between each two neighbours.
pub open spec fn joined(items: Seq<Seq<char>>) -> Seq<char>
    decreases items.len(),
{
    if items.len() == 0 {
        Seq::empty()
    } else if items.len() == 1 {
        items[0]
    } else {
        joined(items.drop_last()) + ","@ + items.last()
    }
}

/// A member of a JSON object: its name, and the JSON text of its value.
pub open spec fn member_text(name: Seq<char>, value: Seq<char>) -> Seq<char> {
    "\""@ + name + "\":"@ + value
}

/// The JSON object with the given members.
pub open spec fn object_text(members: Seq<Seq<char>>) -> Seq<char> {
    "{"@ + joined(members) + "}"@
}

/// The JSON array with the given items.
pub open spec fn array_text(items: Seq<Seq<char>>) -> Seq<char> {
    "["@ + joined(items) + "]"@
}

/// One more item adds a comma and itself.
pub proof fn lemma_joined_push(items: Seq<Seq<char>>, item: Seq<char>)
    requires
        items.len() > 0,
    ensures
        joined(items.push(item)) == joined(items) + ","@ + item,
{
    assert(items.push(item).drop_last() =~= items);
}

/// The text of an open object, with its first member.
pub proof fn lemma_first_member(open: Seq<char>, name: Seq<char>, value: Seq<char>)
    requires
        open == "{"@ + ("\""@ + name + "\":"@),
    ensures
        open + value == "{"@ + joined(seq![member_text(name, value)]),
{
    assert(open + value =~= "{"@ + member_text(name, value));
}

/// The text of an open object, with one more member.
pub proof fn lemma_next_member(
    text: Seq<char>,
    members: Seq<Seq<char>>,
    lead: Seq<char>,
    name: Seq<char>,
    value: Seq<char>,
)
    requires
        members.len() > 0,
        text == "{"@ + joined(members),
        lead == ","@ + ("\""@ + name + "\":"@),
    ensures
        text + lead + value == "{"@ + joined(members.push(member_text(name, value))),
{
    lemma_joined_push(members, member_text(name, value));
    assert(text + lead + value =~= "{"@ + (joined(members) + ","@ + member_text(name, value)));
}

/// The value of a hexadecimal digit in small letters.
pub open spec fn small_hex_value(c: char) -> int {
    if c as int <= 57 {
        c as int - 48
    } else {
        c as int - 87
    }
}

/// The character that a backslash and `c` stand for.
pub open spec fn unescaped(c: char) -> char {
    if c == 'b' {
        '\u{8}'
    } else if c == 't' {
        '\t'
    } else if c == 'n' {
        '\n'
    } else if c == 'f' {
        '\u{c}'
    } else if c == 'r' {
        '\r'
    } else {
        c
    }
}

/// The text that stands between the quotes of a JSON string.
pub open spec fn json_read(t: Seq<char>) -> Seq<char>
    decreases t.len(),
{
    if t.len() == 0 {
        Seq::empty()
    } else if t[0] == '\\' && t.len() >= 6 && t[1] == 'u' {
        seq![(16 * small_hex_value(t[4]) + small_hex_value(t[5])) as u8 as char] + json_read(
            t.skip(6),
        )
    } else if t[0] == '\\' && t.len() >= 2 {
        seq![unescaped(t[1])] + json_read(t.skip(2))
    } else {
        seq![t[0]] + json_read(t.skip(1))
    }
}

/// What is written into a JSON string can be read back, so no two texts are
/// written alike.
pub proof fn law_json_text_can_be_read_back(s: Seq<char>)
    ensures
        json_read(json_chars(s)) == s,
        json_text(s) == seq!['"'] + json_chars(s) + seq!['"'],
    decreases s.len(),
{
    if s.len() == 0 {
        assert(json_read(json_chars(s)) =~= s);
    } else {
        let c = s[0];
        let rest = s.skip(1);
        lemma_json_chars_first(s);
        law_json_text_can_be_read_back(rest);
        lemma_json_read_first(c, json_chars(rest));
        assert(seq![c] + rest =~= s);
    }
}

/// The first character is written first.
proof fn lemma_json_chars_first(s: Seq<char>)
    requires
        s.len() > 0,
    ensures
        json_chars(s) == json_char(s[0]) + json_chars(s.skip(1)),
    decreases s.len(),
{
    if s.len() == 1 {
        assert(s.drop_last() =~= Seq::empty());
        assert(s.skip(1) =~= Seq::empty());
        assert(json_chars(s) =~= json_char(s[0]) + json_chars(s.skip(1)));
    } else {
        let shorter = s.drop_last();
        lemma_json_chars_first(shorter);
        assert(shorter.skip(1) =~= s.skip(1).drop_last());
        assert(s.skip(1).last() == s.last());
        assert(json_chars(s) =~= json_char(s[0]) + json_chars(s.skip(1)));
    }
}

/// A character is read back from where it was written.
proof fn lemma_json_read_first(c: char, rest: Seq<char>)
    ensures
        json_read(json_char(c) + rest) == seq![c] + json_read(rest),
{
    let written = json_char(c);
    let t = written + rest;
    assert(t.skip(written.len() as int) =~= rest);
    assert(t[0] == written[0]);
    if written.len() > 1 {
        assert(t[1] == written[1]);
    }
    if written.len() == 6 {
        assert(t[4] == small_hex(c as int / 16));
        assert(t[5] == small_hex(c as int % 16));
        assert(small_hex_value(t[4]) == c as int / 16);
        assert(small_hex_value(t[5]) == c as int % 16);
    }
}

/// The members of a JSON object with string values, in the order of `keys`.
pub open spec fn json_members(keys: Seq<String>, values: Map<String, String>) -> Seq<char>
    decreases keys.len(),
{
    if keys.len() == 0 {
        Seq::empty()
    } else {
        let member = json_text(keys.last()@) + seq![':'] + json_text(values[keys.last()]@);
        if keys.len() == 1 {
            member
        } else {
            json_members(keys.drop_last(), values) + seq![','] + member
        }
    }
}

/// `text` is a JSON object with exactly the entries of `values`, each once,
/// in some order.
pub open spec fn json_object_of(values: Map<String, String>, text: Seq<char>) -> bool {
    exists|keys: Seq<String>|
        {
            &&& keys.no_duplicates()
            &&& keys.to_set() == values.dom()
            &&& text == seq!['{'] + #[trigger] json_members(keys, values) + seq!['}']
        }
}

/// `serde_json::to_string` on a string. Claimed of it: it succeeds, and the
/// text is the string between quotes, escaped character by character.
#[verifier::external_body]
pub(crate) fn json_string(s: &str) -> (r: Result<String, serde_json::Error>)
    ensures
        r is Ok,
        r->Ok_0@ == json_text(s@),
{
    serde_json::to_string(s)
}

/// Append a text in JSON.
pub(crate) fn append_json(out: &mut String, s: &str) -> (r: Result<(), serde_json::Error>)
    ensures
        r is Ok,
        final(out)@ == old(out)@ + json_text(s@),
{
    let text = json_string(s)?;
    out.append(text.as_str());
    Ok(())
}

/// Append an optional text in JSON.
pub(crate) fn append_json_option(out: &mut String, o: &Option<String>) -> (r: Result<
    (),
    serde_json::Error,
>)
    ensures
        r is Ok,
        final(out)@ == old(out)@ + json_option(opt_text(*o)),
{
    match o {
        Some(s) => append_json(out, s.as_str()),
        None => {
            out.append("null");
            Ok(())
        },
    }
}

/// Append an optional number in JSON.
pub(crate) fn append_json_number(out: &mut String, o: Option<u64>)
    ensures
        final(out)@ == old(out)@ + json_number(o),
{
    match o {
        Some(n) => {
            let digits = decimal_string(n);
            out.append(digits.as_str());
        },
        None => {
            out.append("null");
        },
    }
}

/// `serde_json::to_string` on a map from strings to strings. Claimed of it:
/// it succeeds, and the text is an object with the entries of the map, in
/// an order that is left open.
#[verifier::external_body]
pub(crate) fn json_string_map(values: &HashMap<String, String>) -> (r: Result<
    String,
    serde_json::Error,
>)
    ensures
        r is Ok,
        json_object_of(values@, r->Ok_0@),
{
    serde_json::to_string(values)
}

} // verus!
