//! Text as sequences of characters: searching, splitting, trimming and
//! case folding, each with a model over `Seq<char>`.

use vstd::prelude::*;
use vstd::slice::slice_subrange;

verus! {

// ── Building and taking apart ─────────────────────────────────────────────────

/// `String::push` appends the given character to the end of the string.
pub assume_specification[ String::push ](s: &mut String, c: char)
    ensures
        final(s)@ == old(s)@.push(c),
;

/// The characters of `s`, in order.
pub fn chars_of(s: &str) -> (r: Vec<char>)
    ensures
        r@ == s@,
{
    let mut out: Vec<char> = Vec::new();
    for c in it: s.chars()
        invariant
            it.seq() == s@,
            out@ == s@.take(it.index() as int),
    {
        out.push(c);
        assert(s@.take(it.index() as int + 1) =~= s@.take(it.index() as int).push(c));
    }
    assert(s@.take(s@.len() as int) =~= s@);
    out
}

/// The string that holds `cs`.
pub fn string_of(cs: &[char]) -> (r: String)
    ensures
        r@ == cs@,
{
    let mut out = String::new();
    let mut i: usize = 0;
    while i < cs.len()
        invariant
            i <= cs.len(),
            out@ == cs@.take(i as int),
        decreases cs.len() - i,
    {
        out.push(cs[i]);
        proof {
            assert(cs@.take(i as int + 1) =~= cs@.take(i as int).push(cs@[i as int]));
        }
        i = i + 1;
    }
    assert(cs@.take(cs@.len() as int) =~= cs@);
    out
}

/// Whether two character sequences are equal.
pub fn same(a: &[char], b: &[char]) -> (r: bool)
    ensures
        r == (a@ == b@),
{
    if a.len() != b.len() {
        return false;
    }
    let mut i: usize = 0;
    while i < a.len()
        invariant
            i <= a.len(),
            a.len() == b.len(),
            forall|k: int| 0 <= k < i ==> a@[k] == b@[k],
        decreases a.len() - i,
    {
        if a[i] != b[i] {
            return false;
        }
        i = i + 1;
    }
    assert(a@ =~= b@);
    true
}

/// Whether two strings hold the same text.
pub fn same_text(a: &str, b: &str) -> (r: bool)
    ensures
        r == (a@ == b@),
{
    let x = chars_of(a);
    let y = chars_of(b);
    same(x.as_slice(), y.as_slice())
}

// ── Optional text ─────────────────────────────────────────────────────────────

/// The text of an optional string.
pub open spec fn opt_text(o: Option<String>) -> Option<Seq<char>> {
    match o {
        Some(s) => Some(s@),
        None => None,
    }
}

// ── Searching ─────────────────────────────────────────────────────────────────

/// `pat` stands in `s` at position `i`.
pub open spec fn occurs_at(s: Seq<char>, pat: Seq<char>, i: int) -> bool {
    &&& 0 <= i
    &&& i + pat.len() <= s.len()
    &&& s.subrange(i, i + pat.len()) == pat
}

/// The first position at or after `from` at which `pat` stands in `s`.
pub open spec fn find_from(s: Seq<char>, pat: Seq<char>, from: int) -> Option<int>
    decreases s.len() - from + 1,
{
    if from < 0 || from + pat.len() > s.len() {
        None
    } else if occurs_at(s, pat, from) {
        Some(from)
    } else {
        find_from(s, pat, from + 1)
    }
}

/// The first position at which `pat` stands in `s`.
pub open spec fn find(s: Seq<char>, pat: Seq<char>) -> Option<int> {
    find_from(s, pat, 0)
}

/// The last position at or before `upto` at which `pat` stands in `s`.
pub open spec fn rfind_upto(s: Seq<char>, pat: Seq<char>, upto: int) -> Option<int>
    decreases upto + 1,
{
    if upto < 0 {
        None
    } else if occurs_at(s, pat, upto) {
        Some(upto)
    } else {
        rfind_upto(s, pat, upto - 1)
    }
}

/// The last position at which `pat` stands in `s`.
pub open spec fn rfind(s: Seq<char>, pat: Seq<char>) -> Option<int> {
    rfind_upto(s, pat, s.len() - pat.len())
}

/// `pat` stands somewhere in `s`.
pub open spec fn contains_text(s: Seq<char>, pat: Seq<char>) -> bool {
    exists|i: int| occurs_at(s, pat, i)
}

/// `s` up to the first `c`, or all of it where there is none.
pub open spec fn before_first(s: Seq<char>, c: char) -> Seq<char> {
    match find(s, seq![c]) {
        Some(i) => s.take(i),
        None => s,
    }
}

/// `s` behind the last `c`, or all of it where there is none.
pub open spec fn after_last(s: Seq<char>, c: char) -> Seq<char> {
    match rfind(s, seq![c]) {
        Some(i) => s.skip(i + 1),
        None => s,
    }
}

/// What [`find_from`] returns is the least position at which the pattern
/// stands, and it returns one exactly where there is one.
pub proof fn lemma_find_from(s: Seq<char>, pat: Seq<char>, from: int)
    requires
        0 <= from,
    ensures
        match find_from(s, pat, from) {
            Some(i) => {
                &&& from <= i
                &&& occurs_at(s, pat, i)
                &&& forall|k: int| from <= k < i ==> !occurs_at(s, pat, k)
            },
            None => forall|k: int| from <= k ==> !occurs_at(s, pat, k),
        },
    decreases s.len() - from + 1,
{
    if from + pat.len() > s.len() {
    } else if occurs_at(s, pat, from) {
    } else {
        lemma_find_from(s, pat, from + 1);
    }
}

/// What [`rfind_upto`] returns is the greatest position at which the
/// pattern stands, and it returns one exactly where there is one.
pub proof fn lemma_rfind_upto(s: Seq<char>, pat: Seq<char>, upto: int)
    ensures
        match rfind_upto(s, pat, upto) {
            Some(i) => {
                &&& i <= upto
                &&& occurs_at(s, pat, i)
                &&& forall|k: int| i < k <= upto ==> !occurs_at(s, pat, k)
            },
            None => forall|k: int| k <= upto ==> !occurs_at(s, pat, k),
        },
    decreases upto + 1,
{
    if upto < 0 {
    } else if occurs_at(s, pat, upto) {
    } else {
        lemma_rfind_upto(s, pat, upto - 1);
    }
}

/// A pattern stands where it was put, whatever is around it.
pub proof fn law_pattern_stands_where_put(a: Seq<char>, pat: Seq<char>, b: Seq<char>)
    ensures
        occurs_at(a + pat + b, pat, a.len() as int),
        contains_text(a + pat + b, pat),
{
    let s = a + pat + b;
    assert(s.subrange(a.len() as int, a.len() as int + pat.len()) =~= pat);
    assert(occurs_at(s, pat, a.len() as int));
}

/// Where a pattern stands, the text is what stands before it, the pattern, and
/// what stands behind it, letter for letter.
pub proof fn law_pattern_parts_text(s: Seq<char>, pat: Seq<char>, i: int)
    requires
        occurs_at(s, pat, i),
    ensures
        0 <= i,
        i + pat.len() <= s.len(),
        s == s.take(i) + pat + s.skip(i + pat.len()),
{
    assert(s =~= s.take(i) + s.subrange(i, i + pat.len()) + s.skip(i + pat.len()));
}

/// A text contains a pattern exactly where the search finds it.
pub proof fn lemma_contains_is_find(s: Seq<char>, pat: Seq<char>)
    ensures
        contains_text(s, pat) <==> find(s, pat) is Some,
{
    lemma_find_from(s, pat, 0);
    if contains_text(s, pat) {
        let i = choose|i: int| occurs_at(s, pat, i);
        assert(0 <= i);
    }
}

/// Whether `pat` stands in `s` at position `i`.
fn stands_at(s: &[char], pat: &[char], i: usize) -> (r: bool)
    requires
        i + pat.len() <= s.len(),
    ensures
        r == occurs_at(s@, pat@, i as int),
{
    let mut k: usize = 0;
    while k < pat.len()
        invariant
            k <= pat.len(),
            i + pat.len() <= s.len(),
            forall|m: int| 0 <= m < k ==> s@[i + m] == pat@[m],
        decreases pat.len() - k,
    {
        if s[i + k] != pat[k] {
            proof {
                let sub = s@.subrange(i as int, i + pat.len());
                assert(sub[k as int] == s@[i + k]);
            }
            return false;
        }
        k = k + 1;
    }
    assert(s@.subrange(i as int, i + pat.len()) =~= pat@);
    true
}

/// The first position at or after `from` at which `pat` stands in `s`.
pub fn find_chars(s: &[char], pat: &[char], from: usize) -> (r: Option<usize>)
    ensures
        match r {
            Some(i) => find_from(s@, pat@, from as int) == Some(i as int),
            None => find_from(s@, pat@, from as int) is None,
        },
{
    let mut i: usize = from;
    while i <= s.len() && pat.len() <= s.len() - i
        invariant
            find_from(s@, pat@, from as int) == find_from(s@, pat@, i as int),
        decreases s.len() + 1 - i,
    {
        if stands_at(s, pat, i) {
            return Some(i);
        }
        if i == s.len() {
            assert(find_from(s@, pat@, i + 1) is None);
            return None;
        }
        i = i + 1;
    }
    None
}

/// The last position at which `pat` stands in `s`.
pub fn rfind_chars(s: &[char], pat: &[char]) -> (r: Option<usize>)
    ensures
        match r {
            Some(i) => rfind(s@, pat@) == Some(i as int),
            None => rfind(s@, pat@) is None,
        },
{
    if pat.len() > s.len() {
        return None;
    }
    let mut i: usize = s.len() - pat.len();
    loop
        invariant
            i + pat.len() <= s.len(),
            rfind(s@, pat@) == rfind_upto(s@, pat@, i as int),
        decreases i,
    {
        if stands_at(s, pat, i) {
            return Some(i);
        }
        if i == 0 {
            assert(rfind_upto(s@, pat@, -1) is None);
            return None;
        }
        i = i - 1;
    }
}

/// Whether `s` contains `pat`.
pub fn has_text(s: &str, pat: &str) -> (r: bool)
    ensures
        r == contains_text(s@, pat@),
{
    let cs = chars_of(s);
    let ps = chars_of(pat);
    proof {
        lemma_contains_is_find(s@, pat@);
    }
    match find_chars(cs.as_slice(), ps.as_slice(), 0) {
        Some(_) => true,
        None => false,
    }
}

/// The position of the first `c`, or the length of `s` where there is none.
pub fn first_or_end(s: &[char], c: char) -> (r: usize)
    ensures
        r <= s.len(),
        s@.take(r as int) == before_first(s@, c),
        r == match find(s@, seq![c]) {
            Some(i) => i,
            None => s@.len() as int,
        },
{
    let pat: [char; 1] = [c];
    proof {
        assert(pat@ =~= seq![c]);
        lemma_find_from(s@, seq![c], 0);
    }
    match find_chars(s, &pat, 0) {
        Some(i) => i,
        None => {
            assert(s@.take(s@.len() as int) =~= s@);
            s.len()
        },
    }
}

/// The position behind the last `c`, or the start where there is none.
pub fn behind_last(s: &[char], c: char) -> (r: usize)
    ensures
        r <= s.len(),
        s@.skip(r as int) == after_last(s@, c),
{
    let pat: [char; 1] = [c];
    proof {
        assert(pat@ =~= seq![c]);
        assert(pat@.len() == 1);
        lemma_rfind_upto(s@, pat@, s@.len() - pat@.len());
    }
    match rfind_chars(s, &pat) {
        Some(i) => {
            assert(i < s.len());
            i + 1
        },
        None => {
            assert(s@.skip(0) =~= s@);
            0
        },
    }
}

// ── Splitting ─────────────────────────────────────────────────────────────────

/// The pieces of `s` between its separators: one more than it has separators.
pub open spec fn split(s: Seq<char>, sep: char) -> Seq<Seq<char>>
    decreases s.len(),
{
    if s.len() == 0 {
        seq![Seq::<char>::empty()]
    } else {
        let pieces = split(s.drop_last(), sep);
        if s.last() == sep {
            pieces.push(Seq::empty())
        } else {
            pieces.drop_last().push(pieces.last().push(s.last()))
        }
    }
}

/// The pieces set behind one another, with the separator between them.
pub open spec fn join(pieces: Seq<Seq<char>>, sep: char) -> Seq<char>
    decreases pieces.len(),
{
    if pieces.len() == 0 {
        Seq::empty()
    } else if pieces.len() == 1 {
        pieces[0]
    } else {
        join(pieces.drop_last(), sep).push(sep) + pieces.last()
    }
}

/// Splitting loses nothing and cuts at every separator: the pieces join to
/// the text again, and none of them holds a separator.
pub proof fn lemma_split(s: Seq<char>, sep: char)
    ensures
        split(s, sep).len() >= 1,
        join(split(s, sep), sep) == s,
        forall|i: int| 0 <= i < split(s, sep).len() ==> !(#[trigger] split(s, sep)[i]).contains(sep),
    decreases s.len(),
{
    if s.len() == 0 {
        assert(join(split(s, sep), sep) =~= s);
    } else {
        let pieces = split(s.drop_last(), sep);
        lemma_split(s.drop_last(), sep);
        let now = split(s, sep);
        if s.last() == sep {
            assert(now.drop_last() =~= pieces);
            assert(join(now, sep) =~= s);
        } else {
            let last = pieces.last().push(s.last());
            assert(now.drop_last() =~= pieces.drop_last());
            assert(now.last() == last);
            assert(join(now, sep) =~= join(pieces, sep).push(s.last()));
            assert(join(now, sep) =~= s);
            assert(!last.contains(sep)) by {
                assert(!pieces[pieces.len() - 1].contains(sep));
                if last.contains(sep) {
                    let k = choose|k: int| 0 <= k < last.len() && last[k] == sep;
                    assert(pieces.last()[k] == sep);
                }
            }
            assert forall|i: int| 0 <= i < now.len() implies !(#[trigger] now[i]).contains(sep) by {
                if i < now.len() - 1 {
                    assert(now[i] == pieces[i]);
                }
            }
        }
    }
}

/// The texts that `v` holds.
pub open spec fn texts(v: Seq<Vec<char>>) -> Seq<Seq<char>> {
    v.map_values(|p: Vec<char>| p@)
}

/// Splits `s` at each `sep`.
pub fn split_chars(s: &[char], sep: char) -> (r: Vec<Vec<char>>)
    ensures
        texts(r@) == split(s@, sep),
{
    let mut out: Vec<Vec<char>> = Vec::new();
    let mut cur: Vec<char> = Vec::new();
    let mut i: usize = 0;
    assert(texts(out@).push(cur@) =~= split(s@.take(0), sep));
    while i < s.len()
        invariant
            i <= s.len(),
            texts(out@).push(cur@) == split(s@.take(i as int), sep),
        decreases s.len() - i,
    {
        let ghost now = s@.take(i as int + 1);
        let ghost pieces = texts(out@).push(cur@);
        assert(now.drop_last() =~= s@.take(i as int));
        let c = s[i];
        if c == sep {
            let ghost before = out@;
            out.push(cur);
            assert(texts(out@) =~= texts(before).push(cur@));
            cur = Vec::new();
            assert(texts(out@).push(cur@) =~= pieces.push(Seq::empty()));
        } else {
            let ghost before = cur@;
            cur.push(c);
            assert(texts(out@).push(cur@) =~= pieces.drop_last().push(pieces.last().push(c)));
        }
        i = i + 1;
    }
    assert(s@.take(s@.len() as int) =~= s@);
    let ghost before = out@;
    let ghost last = cur@;
    out.push(cur);
    assert(texts(out@) =~= texts(before).push(last));
    out
}

// ── Trimming ──────────────────────────────────────────────────────────────────

/// The characters with the Unicode property `White_Space`.
pub open spec fn white(c: char) -> bool {
    let u = c as u32;
    ||| 0x09 <= u <= 0x0d
    ||| u == 0x20
    ||| u == 0x85
    ||| u == 0xa0
    ||| u == 0x1680
    ||| 0x2000 <= u <= 0x200a
    ||| u == 0x2028
    ||| u == 0x2029
    ||| u == 0x202f
    ||| u == 0x205f
    ||| u == 0x3000
}

/// Whether `c` has the Unicode property `White_Space`.
pub fn is_white(c: char) -> (r: bool)
    ensures
        r == white(c),
{
    let u = c as u32;
    (0x09 <= u && u <= 0x0d) || u == 0x20 || u == 0x85 || u == 0xa0 || u == 0x1680 || (0x2000 <= u
        && u <= 0x200a) || u == 0x2028 || u == 0x2029 || u == 0x202f || u == 0x205f || u == 0x3000
}

/// `s` without the white space in front.
pub open spec fn trim_start(s: Seq<char>) -> Seq<char>
    decreases s.len(),
{
    if s.len() > 0 && white(s[0]) {
        trim_start(s.skip(1))
    } else {
        s
    }
}

/// `s` without the white space behind.
pub open spec fn trim_end(s: Seq<char>) -> Seq<char>
    decreases s.len(),
{
    if s.len() > 0 && white(s.last()) {
        trim_end(s.drop_last())
    } else {
        s
    }
}

/// `s` without the white space at both ends.
pub open spec fn trim(s: Seq<char>) -> Seq<char> {
    trim_end(trim_start(s))
}

/// `s` holds nothing but white space.
pub open spec fn blank(s: Seq<char>) -> bool {
    forall|i: int| 0 <= i < s.len() ==> white(#[trigger] s[i])
}

/// Trimming leaves nothing exactly where there was nothing but white space.
pub proof fn lemma_trim_blank(s: Seq<char>)
    ensures
        trim(s).len() == 0 <==> blank(s),
{
    lemma_trim_start(s);
    lemma_trim_end(trim_start(s));
    let k = s.len() - trim_start(s).len();
    if blank(s) {
        if trim_start(s).len() > 0 {
            assert(trim_start(s)[0] == s[k]);
        }
    }
    if trim(s).len() == 0 {
        assert forall|i: int| 0 <= i < s.len() implies white(#[trigger] s[i]) by {
            if i >= k {
                assert(s[i] == trim_start(s)[i - k]);
            }
        }
    }
}

/// What is trimmed in front is white space, and the rest starts with none.
pub proof fn lemma_trim_start(s: Seq<char>)
    ensures
        trim_start(s).len() <= s.len(),
        trim_start(s) == s.skip(s.len() - trim_start(s).len()),
        forall|i: int| 0 <= i < s.len() - trim_start(s).len() ==> white(#[trigger] s[i]),
        trim_start(s).len() > 0 ==> !white(trim_start(s)[0]),
    decreases s.len(),
{
    if s.len() > 0 && white(s[0]) {
        let rest = s.skip(1);
        lemma_trim_start(rest);
        assert(trim_start(s) =~= s.skip(s.len() - trim_start(s).len()));
        assert forall|i: int| 0 <= i < s.len() - trim_start(s).len() implies white(#[trigger] s[i]) by {
            if i > 0 {
                assert(s[i] == rest[i - 1]);
            }
        }
    } else {
        assert(s.skip(0) =~= s);
    }
}

/// What is trimmed behind is white space, and the rest ends with none.
pub proof fn lemma_trim_end(s: Seq<char>)
    ensures
        trim_end(s).len() <= s.len(),
        trim_end(s) == s.take(trim_end(s).len() as int),
        forall|i: int| trim_end(s).len() <= i < s.len() ==> white(#[trigger] s[i]),
        trim_end(s).len() > 0 ==> !white(trim_end(s).last()),
    decreases s.len(),
{
    if s.len() > 0 && white(s.last()) {
        let rest = s.drop_last();
        lemma_trim_end(rest);
        assert(trim_end(s) =~= s.take(trim_end(s).len() as int));
        assert forall|i: int| trim_end(s).len() <= i < s.len() implies white(#[trigger] s[i]) by {
            if i < s.len() - 1 {
                assert(s[i] == rest[i]);
            }
        }
    } else {
        assert(s.take(s.len() as int) =~= s);
    }
}

/// The part of `s` that is left once the white space at both ends is gone.
pub fn trim_chars(s: &[char]) -> (r: &[char])
    ensures
        r@ == trim(s@),
{
    let mut i: usize = 0;
    assert(s@.skip(0) =~= s@);
    while i < s.len() && is_white(s[i])
        invariant
            i <= s.len(),
            trim_start(s@.skip(i as int)) == trim_start(s@),
        decreases s.len() - i,
    {
        assert(s@.skip(i as int)[0] == s@[i as int]);
        assert(s@.skip(i as int).skip(1) =~= s@.skip(i as int + 1));
        i = i + 1;
    }
    let ghost front = s@.skip(i as int);
    assert(trim_start(s@) == front) by {
        if i < s.len() {
            assert(front[0] == s@[i as int]);
        }
    }
    let mut j: usize = s.len();
    assert(s@.subrange(i as int, j as int) =~= front);
    while i < j && is_white(s[j - 1])
        invariant
            i <= j <= s.len(),
            trim_end(s@.subrange(i as int, j as int)) == trim_end(front),
        decreases j - i,
    {
        let ghost part = s@.subrange(i as int, j as int);
        assert(part.last() == s@[j - 1]);
        assert(part.drop_last() =~= s@.subrange(i as int, j - 1));
        j = j - 1;
    }
    let ghost part = s@.subrange(i as int, j as int);
    assert(trim_end(part) == part) by {
        if i < j {
            assert(part.last() == s@[j - 1]);
        }
    }
    slice_subrange(s, i, j)
}

/// Whether `s` holds nothing but white space.
pub fn is_blank(s: &str) -> (r: bool)
    ensures
        r == blank(s@),
{
    let cs = chars_of(s);
    let rest = trim_chars(cs.as_slice());
    proof {
        lemma_trim_blank(s@);
    }
    rest.len() == 0
}

// ── Letters and digits ────────────────────────────────────────────────────────

/// The ASCII letters and digits.
pub open spec fn ascii_alphanumeric(c: char) -> bool {
    ||| '0' <= c <= '9'
    ||| 'A' <= c <= 'Z'
    ||| 'a' <= c <= 'z'
}

/// Whether `c` is an ASCII letter or digit.
pub fn is_ascii_alphanumeric(c: char) -> (r: bool)
    ensures
        r == ascii_alphanumeric(c),
{
    ('0' <= c && c <= '9') || ('A' <= c && c <= 'Z') || ('a' <= c && c <= 'z')
}

/// An ASCII capital's small letter; any other character itself.
pub open spec fn lower(c: char) -> char {
    if 'A' <= c <= 'Z' {
        ((c as u8 + 32) as u8) as char
    } else {
        c
    }
}

/// `s` with its ASCII capitals made small.
pub open spec fn lowercase(s: Seq<char>) -> Seq<char> {
    s.map_values(|c: char| lower(c))
}

/// Small letters stand for capitals, letter by letter; no other character
/// changes, and none is added or lost.
pub proof fn law_lowercase(s: Seq<char>)
    ensures
        lowercase(s).len() == s.len(),
        forall|i: int|
            0 <= i < s.len() && 'A' <= s[i] <= 'Z' ==> (#[trigger] lowercase(s)[i]) as int == s[i]
                as int + 32,
        forall|i: int|
            0 <= i < s.len() && !('A' <= s[i] <= 'Z') ==> #[trigger] lowercase(s)[i] == s[i],
{
}

/// `s` with its ASCII capitals made small.
pub fn lowercase_string(s: &[char]) -> (r: String)
    ensures
        r@ == lowercase(s@),
{
    let mut out = String::new();
    let mut i: usize = 0;
    while i < s.len()
        invariant
            i <= s.len(),
            out@ == lowercase(s@).take(i as int),
        decreases s.len() - i,
    {
        let c = s[i];
        let small = if 'A' <= c && c <= 'Z' {
            (c as u8 + 32) as char
        } else {
            c
        };
        out.push(small);
        assert(lowercase(s@).take(i as int + 1) =~= lowercase(s@).take(i as int).push(lower(c)));
        i = i + 1;
    }
    assert(lowercase(s@).take(s@.len() as int) =~= lowercase(s@));
    out
}

/// The decimal digit of a value below ten.
pub open spec fn digit(d: nat) -> char {
    ((48 + d) as u8) as char
}

/// `n` in decimal, without leading zeros.
pub open spec fn decimal(n: nat) -> Seq<char>
    decreases n,
{
    if n < 10 {
        seq![digit(n)]
    } else {
        decimal(n / 10).push(digit(n % 10))
    }
}

/// `n` in decimal, with a minus sign in front where it is negative.
pub open spec fn signed_decimal(n: int) -> Seq<char> {
    if n < 0 {
        seq!['-'] + decimal((-n) as nat)
    } else {
        decimal(n as nat)
    }
}

/// The number that decimal digits stand for.
pub open spec fn decimal_value(s: Seq<char>) -> int
    decreases s.len(),
{
    if s.len() == 0 {
        0
    } else {
        10 * decimal_value(s.drop_last()) + (s.last() as int - '0' as int)
    }
}

/// What is written in decimal can be read back: it is made of digits, has no
/// zero in front but that of zero itself, and stands for the number.
pub proof fn law_decimal_can_be_read_back(n: nat)
    ensures
        decimal_value(decimal(n)) == n,
        decimal(n).len() >= 1,
        forall|i: int| 0 <= i < decimal(n).len() ==> '0' <= #[trigger] decimal(n)[i] <= '9',
        decimal(n)[0] == '0' ==> n == 0,
        n == 0 ==> decimal(n) == seq!['0'],
    decreases n,
{
    let s = decimal(n);
    if n < 10 {
        assert(s.drop_last() =~= Seq::<char>::empty());
        assert(decimal_value(s.drop_last()) == 0);
        assert(n == 0 ==> s =~= seq!['0']);
    } else {
        law_decimal_can_be_read_back(n / 10);
        assert(s.drop_last() =~= decimal(n / 10));
        assert(s[0] == decimal(n / 10)[0]);
        assert forall|i: int| 0 <= i < s.len() implies '0' <= #[trigger] s[i] <= '9' by {
            if i < s.len() - 1 {
                assert(s[i] == decimal(n / 10)[i]);
            }
        }
    }
}

/// A negative number is written with a minus sign before its size, and any
/// other without.
pub proof fn law_signed_decimal(n: int)
    ensures
        n >= 0 ==> decimal_value(signed_decimal(n)) == n && signed_decimal(n)[0] != '-',
        n < 0 ==> signed_decimal(n).len() > 1 && signed_decimal(n)[0] == '-' && decimal_value(
            signed_decimal(n).skip(1),
        ) == -n,
        n < 0 ==> signed_decimal(n).skip(1) == decimal((-n) as nat),
{
    if n >= 0 {
        law_decimal_can_be_read_back(n as nat);
    } else {
        law_decimal_can_be_read_back((-n) as nat);
        assert(signed_decimal(n).skip(1) =~= decimal((-n) as nat));
    }
}

/// `n` in decimal.
pub fn decimal_string(n: u64) -> (r: String)
    ensures
        r@ == decimal(n as nat),
    decreases n,
{
    let d = (48 + (n % 10) as u8) as char;
    let mut out = if n < 10 {
        String::new()
    } else {
        decimal_string(n / 10)
    };
    out.push(d);
    assert(out@ =~= decimal(n as nat));
    out
}

/// `n` in decimal, signed.
pub fn signed_decimal_string(n: i32) -> (r: String)
    ensures
        r@ == signed_decimal(n as int),
{
    if n < 0 {
        let mut out = String::new();
        out.push('-');
        let size = (-(n as i64)) as u64;
        let digits = decimal_string(size);
        out.append(digits.as_str());
        assert(out@ =~= signed_decimal(n as int));
        out
    } else {
        decimal_string(n as u64)
    }
}

} // verus!
