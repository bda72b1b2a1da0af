//! Percent-encoding of query parameters, and shortening of text to a number
//! of UTF-8 bytes.

use vstd::prelude::*;
use vstd::string::*;
use vstd::utf8::{
    char_is_scalar, encode_scalar, encode_utf8, encode_utf8_decode_utf8, has_width_1_encoding,
    has_width_2_encoding, has_width_3_encoding, is_ascii_chars, is_ascii_chars_encode_utf8,
};

use crate::text::chars_of;

verus! {

// ── Percent-encoding ──────────────────────────────────────────────────────────

/// The bytes that stand for themselves in a query parameter: the unreserved
/// characters of RFC 3986.
pub open spec fn unreserved(b: u8) -> bool {
    ||| 48 <= b <= 57
    ||| 65 <= b <= 90
    ||| 97 <= b <= 122
    ||| b == 45
    ||| b == 95
    ||| b == 46
    ||| b == 126
}

/// A character whose UTF-8 form is one unreserved byte.
pub open spec fn unreserved_char(c: char) -> bool {
    (c as u32) < 128 && unreserved(c as u8)
}

/// The hexadecimal digit of a value below sixteen, in capitals.
pub open spec fn hex_digit(d: int) -> char {
    if d < 10 {
        ((48 + d) as u8) as char
    } else {
        ((55 + d) as u8) as char
    }
}

/// How a byte is written in a query parameter.
pub open spec fn percent(b: u8) -> Seq<char> {
    if unreserved(b) {
        seq![b as char]
    } else {
        seq!['%', hex_digit(b as int / 16), hex_digit(b as int % 16)]
    }
}

/// How a sequence of bytes is written in a query parameter.
pub open spec fn percent_encoded(bytes: Seq<u8>) -> Seq<char>
    decreases bytes.len(),
{
    if bytes.len() == 0 {
        Seq::empty()
    } else {
        percent(bytes[0]) + percent_encoded(bytes.skip(1))
    }
}

/// How a text is written in a query parameter: byte by byte of its UTF-8 form.
pub open spec fn url_encoded(s: Seq<char>) -> Seq<char> {
    percent_encoded(encode_utf8(s))
}

/// The value of a hexadecimal digit in capitals.
pub open spec fn hex_value(c: char) -> int {
    if c as int <= 57 {
        c as int - 48
    } else {
        c as int - 55
    }
}

/// The bytes that a percent-encoded text stands for.
pub open spec fn percent_decoded(s: Seq<char>) -> Seq<u8>
    decreases s.len(),
{
    if s.len() == 0 {
        Seq::empty()
    } else if s[0] == '%' && s.len() >= 3 {
        seq![(16 * hex_value(s[1]) + hex_value(s[2])) as u8] + percent_decoded(s.skip(3))
    } else {
        seq![s[0] as u8] + percent_decoded(s.skip(1))
    }
}

/// Encoding is undone by decoding.
pub proof fn law_percent_decoding_undoes_encoding(bytes: Seq<u8>)
    ensures
        percent_decoded(percent_encoded(bytes)) == bytes,
    decreases bytes.len(),
{
    let s = percent_encoded(bytes);
    if bytes.len() > 0 {
        let b = bytes[0];
        let rest = bytes.skip(1);
        law_percent_decoding_undoes_encoding(rest);
        if unreserved(b) {
            assert(s[0] == b as char);
            assert(s.skip(1) =~= percent_encoded(rest));
        } else {
            assert(s[0] == '%');
            assert(s.skip(3) =~= percent_encoded(rest));
            assert(s[1] == hex_digit(b as int / 16));
            assert(s[2] == hex_digit(b as int % 16));
            assert(hex_value(s[1]) == b as int / 16);
            assert(hex_value(s[2]) == b as int % 16);
        }
        assert(percent_decoded(s) =~= seq![b] + rest);
        assert(seq![b] + rest =~= bytes);
    } else {
        assert(percent_decoded(s) =~= bytes);
    }
}

/// Two texts with one encoding are one text: no two parameters collide.
pub proof fn law_url_encoding_is_injective(a: Seq<char>, b: Seq<char>)
    requires
        url_encoded(a) == url_encoded(b),
    ensures
        a == b,
{
    law_percent_decoding_undoes_encoding(encode_utf8(a));
    law_percent_decoding_undoes_encoding(encode_utf8(b));
    encode_utf8_decode_utf8(a);
    encode_utf8_decode_utf8(b);
}

/// A letter, a digit, or one of `-`, `_`, `.` and `~` is written as it is. Any
/// other byte is written as `%` and the two capital hexadecimal digits of its
/// value.
pub proof fn law_percent_form_of_a_byte(b: u8)
    ensures
        ({
            let c = b as char;
            let form = percent_encoded(seq![b]);
            if '0' <= c <= '9' || 'A' <= c <= 'Z' || 'a' <= c <= 'z' || c == '-' || c == '_' || c
                == '.' || c == '~' {
                form == seq![c]
            } else {
                &&& form.len() == 3
                &&& form[0] == '%'
                &&& '0' <= form[1] <= '9' || 'A' <= form[1] <= 'F'
                &&& '0' <= form[2] <= '9' || 'A' <= form[2] <= 'F'
                &&& b == 16 * (if form[1] <= '9' {
                    form[1] as int - '0' as int
                } else {
                    form[1] as int - 'A' as int + 10
                }) + (if form[2] <= '9' {
                    form[2] as int - '0' as int
                } else {
                    form[2] as int - 'A' as int + 10
                })
            }
        }),
{
    assert(seq![b].skip(1) =~= Seq::<u8>::empty());
    assert(percent_encoded(Seq::<u8>::empty()) =~= Seq::<char>::empty());
    assert(percent_encoded(seq![b]) =~= percent(b));
}

/// Bytes are written one after the other.
pub proof fn law_percent_forms_follow_one_another(a: Seq<u8>, b: Seq<u8>)
    ensures
        percent_encoded(a + b) == percent_encoded(a) + percent_encoded(b),
    decreases a.len(),
{
    if a.len() == 0 {
        assert(a + b =~= b);
        assert(percent_encoded(a) + percent_encoded(b) =~= percent_encoded(b));
    } else {
        assert((a + b).skip(1) =~= a.skip(1) + b);
        law_percent_forms_follow_one_another(a.skip(1), b);
        assert(percent_encoded(a + b) =~= percent_encoded(a) + percent_encoded(b));
    }
}

/// What is encoded of a text is its UTF-8 form, byte for byte and no other
/// byte: decoded, it is that form again.
pub proof fn law_url_encoding_can_be_read_back(s: Seq<char>)
    ensures
        percent_decoded(url_encoded(s)) == encode_utf8(s),
        url_encoded(s) == percent_encoded(encode_utf8(s)),
{
    law_percent_decoding_undoes_encoding(encode_utf8(s));
}

/// The encoded text holds nothing but unreserved characters and `%`.
pub proof fn law_encoded_alphabet(bytes: Seq<u8>, i: int)
    requires
        0 <= i < percent_encoded(bytes).len(),
    ensures
        ({
            let c = percent_encoded(bytes)[i];
            &&& c == '%' || unreserved_char(c)
            &&& c == '%' || '0' <= c <= '9' || 'A' <= c <= 'Z' || 'a' <= c <= 'z' || c == '-' || c
                == '_' || c == '.' || c == '~'
        }),
    decreases bytes.len(),
{
    let s = percent_encoded(bytes);
    let first = percent(bytes[0]);
    if i < first.len() {
        assert(s[i] == first[i]);
    } else {
        assert(s[i] == percent_encoded(bytes.skip(1))[i - first.len()]);
        law_encoded_alphabet(bytes.skip(1), i - first.len());
    }
}

/// A text of unreserved characters stands for itself.
pub proof fn law_safe_text_is_kept(s: Seq<char>)
    requires
        forall|i: int|
            0 <= i < s.len() ==> ('0' <= #[trigger] s[i] <= '9' || 'A' <= s[i] <= 'Z' || 'a' <= s[i]
                <= 'z' || s[i] == '-' || s[i] == '_' || s[i] == '.' || s[i] == '~'),
    ensures
        url_encoded(s) == s,
{
    assert forall|i: int| 0 <= i < s.len() implies unreserved_char(#[trigger] s[i]) by {
        lemma_safe_char(s[i]);
    }
    assert forall|i: int| 0 <= i < s.len() implies '\0' <= #[trigger] s[i] <= '\u{7f}' by {
        lemma_unreserved_char(s[i]);
    }
    assert(is_ascii_chars(s));
    is_ascii_chars_encode_utf8(s);
    let bytes = encode_utf8(s);
    assert(bytes.len() == s.len());
    assert forall|i: int| 0 <= i < bytes.len() implies unreserved(#[trigger] bytes[i]) && bytes[i] as char
        == s[i] by {
        lemma_unreserved_char(s[i]);
    }
    lemma_unreserved_bytes(bytes, s);
}

/// A letter, a digit and the four marks are unreserved.
proof fn lemma_safe_char(c: char)
    requires
        '0' <= c <= '9' || 'A' <= c <= 'Z' || 'a' <= c <= 'z' || c == '-' || c == '_' || c == '.'
            || c == '~',
    ensures
        unreserved_char(c),
{
}

/// An unreserved character is an ASCII character.
proof fn lemma_unreserved_char(c: char)
    requires
        unreserved_char(c),
    ensures
        '\0' <= c <= '\u{7f}',
        (c as u8) as char == c,
{
}

/// Bytes that stand for themselves are written as they are.
proof fn lemma_unreserved_bytes(bytes: Seq<u8>, s: Seq<char>)
    requires
        bytes.len() == s.len(),
        forall|i: int| 0 <= i < bytes.len() ==> unreserved(#[trigger] bytes[i]) && bytes[i] as char == s[i],
    ensures
        percent_encoded(bytes) == s,
    decreases bytes.len(),
{
    if bytes.len() > 0 {
        assert(unreserved(bytes[0]));
        assert forall|i: int| 0 <= i < bytes.skip(1).len() implies unreserved(
            #[trigger] bytes.skip(1)[i],
        ) && bytes.skip(1)[i] as char == s.skip(1)[i] by {
            assert(bytes.skip(1)[i] == bytes[i + 1]);
        }
        lemma_unreserved_bytes(bytes.skip(1), s.skip(1));
        assert(percent_encoded(bytes) =~= seq![s[0]] + s.skip(1));
        assert(seq![s[0]] + s.skip(1) =~= s);
    } else {
        assert(percent_encoded(bytes) =~= s);
    }
}

/// The hexadecimal digit of a value below sixteen, in capitals.
fn hex_char(d: u8) -> (r: char)
    requires
        d < 16,
    ensures
        r == hex_digit(d as int),
{
    if d < 10 {
        (48 + d) as char
    } else {
        (55 + d) as char
    }
}

/// Minimal URL-encode for query parameters: what comes out holds the
/// unreserved characters of RFC 3986 and `%`.
pub fn urlencode(s: &str) -> (r: String)
    ensures
        r@ == url_encoded(s@),
{
    let bytes = s.as_bytes();
    let mut out = String::new();
    let mut i: usize = 0;
    assert(bytes@.skip(0) =~= bytes@);
    assert(out@ + percent_encoded(bytes@) =~= percent_encoded(bytes@));
    while i < bytes.len()
        invariant
            i <= bytes.len(),
            out@ + percent_encoded(bytes@.skip(i as int)) == percent_encoded(bytes@),
        decreases bytes.len() - i,
    {
        let b = bytes[i];
        let ghost before = out@;
        proof {
            assert(bytes@.skip(i as int)[0] == b);
            assert(bytes@.skip(i as int).skip(1) =~= bytes@.skip(i as int + 1));
        }
        if (48 <= b && b <= 57) || (65 <= b && b <= 90) || (97 <= b && b <= 122) || b == 45 || b == 95
            || b == 46 || b == 126 {
            out.push(b as char);
        } else {
            out.push('%');
            out.push(hex_char(b / 16));
            out.push(hex_char(b % 16));
        }
        proof {
            assert(out@ =~= before + percent(b));
            let rest = percent_encoded(bytes@.skip(i as int + 1));
            assert(out@ + rest =~= before + (percent(b) + rest));
        }
        i = i + 1;
    }
    proof {
        assert(bytes@.skip(bytes@.len() as int) =~= Seq::<u8>::empty());
        assert(out@ + Seq::<char>::empty() =~= out@);
    }
    out
}

// ── Shortening ────────────────────────────────────────────────────────────────

/// The length of a text in UTF-8 bytes.
pub open spec fn byte_len(s: Seq<char>) -> nat {
    encode_utf8(s).len()
}

/// The longest prefix of `s` that takes at most `max` bytes.
pub open spec fn fitting_prefix(s: Seq<char>, max: nat) -> Seq<char>
    decreases s.len(),
{
    if s.len() == 0 || byte_len(s) <= max {
        s
    } else {
        fitting_prefix(s.drop_last(), max)
    }
}

/// `s` where it takes at most `max` bytes, or else its longest prefix that
/// does, with an ellipsis behind it.
pub open spec fn truncated(s: Seq<char>, max: nat) -> Seq<char> {
    if byte_len(s) <= max {
        s
    } else {
        fitting_prefix(s, max).push('\u{2026}')
    }
}

/// The prefix that is kept fits, and no longer one does.
pub proof fn law_fitting_prefix_is_longest(s: Seq<char>, max: nat)
    ensures
        fitting_prefix(s, max).len() <= s.len(),
        fitting_prefix(s, max) == s.take(fitting_prefix(s, max).len() as int),
        byte_len(fitting_prefix(s, max)) <= max,
        forall|k: int|
            fitting_prefix(s, max).len() < k <= s.len() ==> byte_len(#[trigger] s.take(k)) > max,
    decreases s.len(),
{
    assert(s.take(s.len() as int) =~= s);
    if s.len() > 0 && byte_len(s) > max {
        let shorter = s.drop_last();
        law_fitting_prefix_is_longest(shorter, max);
        let n = fitting_prefix(s, max).len();
        assert(shorter.take(n as int) =~= s.take(n as int));
        assert forall|k: int| n < k <= s.len() implies byte_len(#[trigger] s.take(k)) > max by {
            if k < s.len() {
                assert(shorter.take(k) =~= s.take(k));
            }
        }
    }
}

/// A text of at most `max` UTF-8 bytes stays as it is. Of a longer one a prefix
/// stays, with an ellipsis behind it: it takes at most `max` bytes, and one
/// character more would take more than that.
pub proof fn law_shortened_text(s: Seq<char>, max: nat)
    ensures
        encode_utf8(s).len() <= max ==> truncated(s, max) == s,
        encode_utf8(s).len() > max ==> {
            let kept = truncated(s, max).len() - 1;
            &&& 0 <= kept < s.len()
            &&& truncated(s, max) == s.take(kept).push('\u{2026}')
            &&& encode_utf8(s.take(kept)).len() <= max
            &&& encode_utf8(s.take(kept + 1)).len() > max
        },
{
    law_fitting_prefix_is_longest(s, max);
    assert(s.take(s.len() as int) =~= s);
    if encode_utf8(s).len() > max {
        let kept = fitting_prefix(s, max).len() as int;
        assert(byte_len(s.take(kept + 1)) > max);
    }
}

/// The encoding of two texts behind one another.
proof fn lemma_encode_concat(a: Seq<char>, b: Seq<char>)
    ensures
        encode_utf8(a + b) == encode_utf8(a) + encode_utf8(b),
    decreases a.len(),
{
    if a.len() == 0 {
        assert(a + b =~= b);
        assert(encode_utf8(a) + encode_utf8(b) =~= encode_utf8(b));
    } else {
        assert((a + b).drop_first() =~= a.drop_first() + b);
        lemma_encode_concat(a.drop_first(), b);
        assert(encode_utf8(a + b) =~= encode_utf8(a) + encode_utf8(b));
    }
}

/// One more character adds the length of its own encoding.
proof fn lemma_byte_len_push(s: Seq<char>, c: char)
    ensures
        byte_len(s.push(c)) == byte_len(s) + encode_scalar(c as u32).len(),
{
    assert(s.push(c) =~= s + seq![c]);
    lemma_encode_concat(s, seq![c]);
    assert(seq![c].drop_first() =~= Seq::<char>::empty());
    assert(encode_utf8(Seq::<char>::empty()).len() == 0);
    assert(encode_utf8(seq![c]) =~= encode_scalar(c as u32));
}

/// A longer prefix takes at least as many bytes.
proof fn lemma_byte_len_monotone(s: Seq<char>, i: int, j: int)
    requires
        0 <= i <= j <= s.len(),
    ensures
        byte_len(s.take(i)) <= byte_len(s.take(j)),
{
    assert(s.take(j) =~= s.take(i) + s.subrange(i, j));
    lemma_encode_concat(s.take(i), s.subrange(i, j));
}

/// A prefix that fits while the next longer one does not is the longest.
proof fn lemma_fitting_prefix_at(s: Seq<char>, max: nat, i: int)
    requires
        0 <= i < s.len(),
        byte_len(s.take(i)) <= max,
        byte_len(s.take(i + 1)) > max,
    ensures
        byte_len(s) > max,
        fitting_prefix(s, max) == s.take(i),
    decreases s.len(),
{
    lemma_byte_len_monotone(s, i + 1, s.len() as int);
    assert(s.take(s.len() as int) =~= s);
    let shorter = s.drop_last();
    if i == s.len() - 1 {
        assert(shorter =~= s.take(i));
        assert(fitting_prefix(shorter, max) == shorter);
    } else {
        assert(shorter.take(i) =~= s.take(i));
        assert(shorter.take(i + 1) =~= s.take(i + 1));
        lemma_fitting_prefix_at(shorter, max, i);
    }
}

/// The number of bytes in the UTF-8 form of `c`.
fn char_width(c: char) -> (r: usize)
    ensures
        r == encode_scalar(c as u32).len(),
        1 <= r <= 4,
{
    let u = c as u32;
    proof {
        char_is_scalar(c);
    }
    if u < 0x80 {
        assert(has_width_1_encoding(u));
        1
    } else if u < 0x800 {
        assert(has_width_2_encoding(u));
        2
    } else if u < 0x10000 {
        assert(has_width_3_encoding(u));
        3
    } else {
        4
    }
}

/// Shorten `s` to at most `max` bytes at a character boundary, with an
/// ellipsis behind it where anything was cut off.
pub fn truncate(s: &str, max: usize) -> (r: String)
    ensures
        r@ == truncated(s@, max as nat),
{
    let cs = chars_of(s);
    let mut out = String::new();
    let mut used: usize = 0;
    let mut i: usize = 0;
    assert(s@.take(0) =~= Seq::<char>::empty());
    assert(byte_len(s@.take(0)) == 0);
    while i < cs.len()
        invariant
            i <= cs.len(),
            cs@ == s@,
            out@ == s@.take(i as int),
            used == byte_len(s@.take(i as int)),
            used <= max,
        decreases cs.len() - i,
    {
        let c = cs[i];
        let width = char_width(c);
        proof {
            assert(s@.take(i as int + 1) =~= s@.take(i as int).push(c));
            lemma_byte_len_push(s@.take(i as int), c);
        }
        if width > max - used {
            proof {
                lemma_fitting_prefix_at(s@, max as nat, i as int);
            }
            out.push('\u{2026}');
            return out;
        }
        out.push(c);
        used = used + width;
        i = i + 1;
    }
    assert(s@.take(s@.len() as int) =~= s@);
    out
}

} // verus!
