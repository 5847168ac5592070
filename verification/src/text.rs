//! Text on sequences of characters: the searches, cuts and joins that the other
//! modules build names, paths and configuration text with.

use vstd::prelude::*;
use vstd::string::*;
use vstd::utf8::*;

verus! {

/// `String::push`: appends one character.
pub assume_specification[ String::push ](s: &mut String, c: char)
    ensures
        final(s)@ == old(s)@.push(c),
;

/// What `str::to_uppercase` makes of a text.
pub uninterp spec fn upper(s: Seq<char>) -> Seq<char>;

/// What `str::to_lowercase` makes of a text.
pub uninterp spec fn lower(s: Seq<char>) -> Seq<char>;

/// `c` with an ASCII small letter made a capital.
pub open spec fn ascii_upper(c: char) -> char {
    if 'a' <= c <= 'z' {
        (c as int - 32) as char
    } else {
        c
    }
}

/// `c` with an ASCII capital made a small letter.
pub open spec fn ascii_lower(c: char) -> char {
    if 'A' <= c <= 'Z' {
        (c as int + 32) as char
    } else {
        c
    }
}

/// `str::to_uppercase`: the text in upper case by Unicode's mapping, which for ASCII
/// text changes the letters one by one.
pub assume_specification[ str::to_uppercase ](s: &str) -> (r: String)
    ensures
        r@ == upper(s@),
        is_ascii_chars(s@) ==> r@ == s@.map_values(|c: char| ascii_upper(c)),
;

/// `str::to_lowercase`: the text in lower case by Unicode's mapping, which for ASCII
/// text changes the letters one by one.
pub assume_specification[ str::to_lowercase ](s: &str) -> (r: String)
    ensures
        r@ == lower(s@),
        is_ascii_chars(s@) ==> r@ == s@.map_values(|c: char| ascii_lower(c)),
;

/// The text that `bytes` encode, where they are UTF-8. `String::from_utf8` accepts
/// exactly the valid encodings and decodes them.
#[verifier::external_body]
pub(crate) fn utf8_text(bytes: &Vec<u8>) -> (r: Option<String>)
    ensures
        match r {
            Some(s) => valid_utf8(bytes@) && s@ == decode_utf8(bytes@),
            None => !valid_utf8(bytes@),
        },
{
    String::from_utf8(bytes.clone()).ok()
}

/// What bytes read as where each part that is no UTF-8 gives a replacement character.
pub uninterp spec fn lossy(bytes: Seq<u8>) -> Seq<char>;

/// The text that `bytes` read as. `String::from_utf8_lossy` decodes valid UTF-8 as it is
/// and puts replacement characters where it is not valid; which parts share one is left
/// to it.
#[verifier::external_body]
pub(crate) fn lossy_text(bytes: &Vec<u8>) -> (r: String)
    ensures
        r@ == lossy(bytes@),
        valid_utf8(bytes@) ==> r@ == decode_utf8(bytes@),
{
    String::from_utf8_lossy(bytes).to_string()
}

/// The characters of each text of a list.
pub open spec fn texts(v: Seq<String>) -> Seq<Seq<char>> {
    v.map_values(|s: String| s@)
}

/// The characters of an optional text.
pub open spec fn opt_text(o: Option<String>) -> Option<Seq<char>> {
    match o {
        Some(s) => Some(s@),
        None => None,
    }
}

/// `pat` stands in `s` at position `i`.
pub open spec fn occurs_at(s: Seq<char>, pat: Seq<char>, i: int) -> bool {
    0 <= i && i + pat.len() <= s.len() && s.subrange(i, i + pat.len()) == pat
}

/// `pat` stands somewhere in `s`.
pub open spec fn has(s: Seq<char>, pat: Seq<char>) -> bool {
    exists|i: int| occurs_at(s, pat, i)
}

/// `s` begins with `pat`.
pub open spec fn begins(s: Seq<char>, pat: Seq<char>) -> bool {
    pat.len() <= s.len() && s.take(pat.len() as int) == pat
}

/// `s` ends with `pat`.
pub open spec fn ends(s: Seq<char>, pat: Seq<char>) -> bool {
    pat.len() <= s.len() && s.skip(s.len() - pat.len()) == pat
}

/// Position of the first `c` in `s`, or the length of `s` where there is none.
pub open spec fn cut(s: Seq<char>, c: char) -> int
    decreases s.len(),
{
    if s.len() == 0 || s[0] == c {
        0
    } else {
        1 + cut(s.drop_first(), c)
    }
}

/// The pieces of `s` between the occurrences of `c`.
pub open spec fn split(s: Seq<char>, c: char) -> Seq<Seq<char>>
    decreases s.len(),
    via split_decreases
{
    let i = cut(s, c);
    if i >= s.len() {
        seq![s]
    } else {
        seq![s.take(i)] + split(s.skip(i + 1), c)
    }
}

#[via_fn]
proof fn split_decreases(s: Seq<char>, c: char) {
    lemma_cut_bounds(s, c);
}

/// The pieces put one after another, with `sep` between neighbours.
pub open spec fn join(parts: Seq<Seq<char>>, sep: Seq<char>) -> Seq<char>
    decreases parts.len(),
{
    if parts.len() == 0 {
        Seq::empty()
    } else if parts.len() == 1 {
        parts[0]
    } else {
        join(parts.drop_last(), sep) + sep + parts.last()
    }
}

/// `s` with each `c` replaced by `with`.
pub open spec fn replaced(s: Seq<char>, c: char, with: Seq<char>) -> Seq<char>
    decreases s.len(),
{
    if s.len() == 0 {
        Seq::empty()
    } else {
        replaced(s.drop_last(), c, with) + (if s.last() == c {
            with
        } else {
            seq![s.last()]
        })
    }
}

/// `s` without the run of `c` at its end.
pub open spec fn trimmed_end(s: Seq<char>, c: char) -> Seq<char>
    decreases s.len(),
{
    if s.len() > 0 && s.last() == c {
        trimmed_end(s.drop_last(), c)
    } else {
        s
    }
}

/// `s` without the run of `c` at its start.
pub open spec fn trimmed_start(s: Seq<char>, c: char) -> Seq<char>
    decreases s.len(),
{
    if s.len() > 0 && s[0] == c {
        trimmed_start(s.drop_first(), c)
    } else {
        s
    }
}

/// `s` with the prefix `pat` taken off as often as it stands at the start.
pub open spec fn trimmed_start_all(s: Seq<char>, pat: Seq<char>) -> Seq<char>
    decreases s.len(),
{
    if pat.len() > 0 && begins(s, pat) {
        trimmed_start_all(s.skip(pat.len() as int), pat)
    } else {
        s
    }
}

/// What stands before the last `c` of `s`, all of it where there is none.
pub open spec fn before_last(s: Seq<char>, c: char) -> Seq<char> {
    if s.contains(c) {
        s.take(last_at(s, c))
    } else {
        s
    }
}

/// The position of the last `c` of `s`, -1 where there is none.
pub open spec fn last_at(s: Seq<char>, c: char) -> int
    decreases s.len(),
{
    if s.len() == 0 {
        -1
    } else if s.last() == c {
        s.len() - 1
    } else {
        last_at(s.drop_last(), c)
    }
}

/// `s` with the suffix `pat` taken off as often as it stands at the end.
pub open spec fn trimmed_end_all(s: Seq<char>, pat: Seq<char>) -> Seq<char>
    decreases s.len(),
{
    if pat.len() > 0 && ends(s, pat) {
        trimmed_end_all(s.take(s.len() - pat.len()), pat)
    } else {
        s
    }
}

/// Position of the first `pat` in `s`, or the length of `s` where there is none.
pub open spec fn first_at(s: Seq<char>, pat: Seq<char>) -> int
    decreases s.len(),
{
    if s.len() < pat.len() || s.len() == 0 {
        s.len() as int
    } else if begins(s, pat) {
        0
    } else {
        1 + first_at(s.drop_first(), pat)
    }
}

proof fn lemma_first_at_is(s: Seq<char>, pat: Seq<char>, i: int)
    requires
        pat.len() > 0,
        0 <= i <= s.len(),
        i == s.len() || occurs_at(s, pat, i),
        forall|j: int| 0 <= j < i ==> !occurs_at(s, pat, j),
    ensures
        first_at(s, pat) == i,
    decreases s.len(),
{
    if s.len() < pat.len() || s.len() == 0 {
    } else {
        assert(s.subrange(0, pat.len() as int) == s.take(pat.len() as int));
        if i == 0 {
            assert(begins(s, pat));
        } else {
            assert(!occurs_at(s, pat, 0));
            let t = s.drop_first();
            assert(occurs_at(s, pat, i) ==> t.subrange(i - 1, i - 1 + pat.len()) == s.subrange(
                i,
                i + pat.len(),
            ));
            assert forall|j: int| 0 <= j < i - 1 implies !occurs_at(t, pat, j) by {
                if occurs_at(t, pat, j) {
                    assert(s.subrange(j + 1, j + 1 + pat.len()) == t.subrange(j, j + pat.len()));
                    assert(occurs_at(s, pat, j + 1));
                }
            }
            lemma_first_at_is(t, pat, i - 1);
        }
    }
}

/// The characters with the Unicode property White_Space.
pub open spec fn is_space(c: char) -> bool {
    ||| '\u{9}' <= c <= '\u{d}'
    ||| c == ' '
    ||| c == '\u{85}'
    ||| c == '\u{a0}'
    ||| c == '\u{1680}'
    ||| '\u{2000}' <= c <= '\u{200a}'
    ||| c == '\u{2028}'
    ||| c == '\u{2029}'
    ||| c == '\u{202f}'
    ||| c == '\u{205f}'
    ||| c == '\u{3000}'
}

/// `s` without the white space at its start.
pub open spec fn trimmed_left(s: Seq<char>) -> Seq<char>
    decreases s.len(),
{
    if s.len() > 0 && is_space(s[0]) {
        trimmed_left(s.drop_first())
    } else {
        s
    }
}

/// `s` without the white space at its end.
pub open spec fn trimmed_right(s: Seq<char>) -> Seq<char>
    decreases s.len(),
{
    if s.len() > 0 && is_space(s.last()) {
        trimmed_right(s.drop_last())
    } else {
        s
    }
}

/// `s` without the white space at either end.
pub open spec fn trimmed(s: Seq<char>) -> Seq<char> {
    trimmed_right(trimmed_left(s))
}

/// A line without the carriage return at its end.
pub open spec fn without_cr(s: Seq<char>) -> Seq<char> {
    if s.len() > 0 && s.last() == '\r' {
        s.drop_last()
    } else {
        s
    }
}

/// The lines of `s`. Each line feed ends one, with a carriage return before it where
/// there is one; what follows the last line feed is a line unless it is empty.
pub open spec fn lines(s: Seq<char>) -> Seq<Seq<char>>
    decreases s.len(),
    via lines_decreases
{
    if s.len() == 0 {
        Seq::empty()
    } else {
        let k = cut(s, '\n');
        if k >= s.len() {
            seq![s]
        } else {
            seq![without_cr(s.take(k))] + lines(s.skip(k + 1))
        }
    }
}

#[via_fn]
proof fn lines_decreases(s: Seq<char>) {
    lemma_cut_bounds(s, '\n');
}

/// The number of characters that `s` begins with that are no white space.
pub open spec fn solid_len(s: Seq<char>) -> int
    decreases s.len(),
{
    if s.len() > 0 && !is_space(s[0]) {
        1 + solid_len(s.drop_first())
    } else {
        0
    }
}

/// The words of `s`: what stands between its white space.
pub open spec fn words(s: Seq<char>) -> Seq<Seq<char>>
    decreases s.len(),
    via words_decreases
{
    if s.len() == 0 {
        Seq::empty()
    } else if is_space(s[0]) {
        words(s.drop_first())
    } else {
        seq![s.take(solid_len(s))] + words(s.skip(solid_len(s)))
    }
}

#[via_fn]
proof fn words_decreases(s: Seq<char>) {
    lemma_solid_bounds(s);
}

proof fn lemma_solid_bounds(s: Seq<char>)
    ensures
        0 <= solid_len(s) <= s.len(),
        s.len() > 0 && !is_space(s[0]) ==> solid_len(s) >= 1,
    decreases s.len(),
{
    if s.len() > 0 {
        lemma_solid_bounds(s.drop_first());
    }
}

pub proof fn lemma_cut_bounds(s: Seq<char>, c: char)
    ensures
        0 <= cut(s, c) <= s.len(),
        cut(s, c) < s.len() ==> s[cut(s, c)] == c,
        forall|j: int| 0 <= j < cut(s, c) ==> s[j] != c,
    decreases s.len(),
{
    if s.len() == 0 || s[0] == c {
    } else {
        lemma_cut_bounds(s.drop_first(), c);
        let t = s.drop_first();
        assert forall|j: int| 0 <= j < cut(s, c) implies s[j] != c by {
            if j > 0 {
                assert(t[j - 1] == s[j]);
            }
        }
    }
}

pub proof fn lemma_cut_is(s: Seq<char>, c: char, i: int)
    requires
        0 <= i <= s.len(),
        forall|j: int| 0 <= j < i ==> s[j] != c,
        i < s.len() ==> s[i] == c,
    ensures
        cut(s, c) == i,
{
    lemma_cut_bounds(s, c);
    let k = cut(s, c);
    if k < i {
        assert(s[k] == c);
    } else if i < k {
        assert(s[i] != c);
    }
}

/// The characters of `s`, one by one.
pub fn chars_of(s: &str) -> (v: Vec<char>)
    ensures
        v@ == s@,
{
    let mut v: Vec<char> = Vec::new();
    for c in it: s.chars()
        invariant
            it.seq() == s@,
            v@ == s@.take(it.index() as int),
    {
        assert(s@.take(it.index() as int + 1) == s@.take(it.index() as int).push(c));
        v.push(c);
    }
    assert(s@.take(s@.len() as int) == s@);
    v
}

/// The text that the characters `v` form.
pub fn string_of(v: &[char]) -> (s: String)
    ensures
        s@ == v@,
{
    let mut s = String::new();
    let mut i: usize = 0;
    while i < v.len()
        invariant
            i <= v@.len(),
            s@ == v@.take(i as int),
        decreases v@.len() - i,
    {
        assert(v@.take(i as int + 1) == v@.take(i as int).push(v@[i as int]));
        s.push(v[i]);
        i += 1;
    }
    assert(v@.take(v@.len() as int) == v@);
    s
}

/// Whether two texts are equal.
pub fn same(a: &str, b: &str) -> (r: bool)
    ensures
        r == (a@ == b@),
{
    broadcast use encode_utf8_decode_utf8;

    let x = a.as_bytes();
    let y = b.as_bytes();
    assert(decode_utf8(x@) == a@);
    assert(decode_utf8(y@) == b@);
    if x.len() != y.len() {
        return false;
    }
    let mut i: usize = 0;
    while i < x.len()
        invariant
            i <= x@.len(),
            x@.len() == y@.len(),
            x@.take(i as int) == y@.take(i as int),
            x@ == encode_utf8(a@),
            y@ == encode_utf8(b@),
        decreases x@.len() - i,
    {
        if x[i] != y[i] {
            assert(x@[i as int] != y@[i as int]);
            return false;
        }
        assert(x@.take(i as int + 1) == x@.take(i as int).push(x@[i as int]));
        assert(y@.take(i as int + 1) == y@.take(i as int).push(y@[i as int]));
        i += 1;
    }
    assert(x@.take(x@.len() as int) == x@);
    assert(y@.take(y@.len() as int) == y@);
    true
}

/// Whether `c` stands in `s`.
pub fn contains_char(s: &str, c: char) -> (r: bool)
    ensures
        r == s@.contains(c),
{
    let v = chars_of(s);
    let mut i: usize = 0;
    while i < v.len()
        invariant
            i <= v@.len(),
            v@ == s@,
            forall|j: int| 0 <= j < i ==> v@[j] != c,
        decreases v@.len() - i,
    {
        if v[i] == c {
            assert(s@[i as int] == c);
            return true;
        }
        i += 1;
    }
    false
}

/// Position of the first `c` in `v`, or its length where there is none.
pub fn cut_at(v: &[char], c: char) -> (i: usize)
    ensures
        i == cut(v@, c),
        i <= v@.len(),
{
    let mut i: usize = 0;
    while i < v.len()
        invariant
            i <= v@.len(),
            forall|j: int| 0 <= j < i ==> v@[j] != c,
        decreases v@.len() - i,
    {
        if v[i] == c {
            proof {
                lemma_cut_is(v@, c, i as int);
            }
            return i;
        }
        i += 1;
    }
    proof {
        lemma_cut_is(v@, c, i as int);
    }
    i
}

/// Whether the characters `p` stand in `v` at position `at`.
pub fn stands_at(v: &[char], p: &[char], at: usize) -> (r: bool)
    ensures
        r == occurs_at(v@, p@, at as int),
{
    if v.len() < p.len() || v.len() - p.len() < at {
        return false;
    }
    let n: usize = v.len();
    let mut i: usize = 0;
    while i < p.len()
        invariant
            i <= p@.len(),
            n == v@.len(),
            at + p@.len() <= n,
            forall|j: int| 0 <= j < i ==> v@[at + j] == p@[j],
        decreases p@.len() - i,
    {
        if v[at + i] != p[i] {
            assert(v@.subrange(at as int, at + p@.len())[i as int] != p@[i as int]);
            return false;
        }
        i += 1;
    }
    assert(v@.subrange(at as int, at + p@.len()) == p@);
    true
}

/// The first position at or after `from` at which `p` stands in `v`.
pub fn find_from(v: &[char], p: &[char], from: usize) -> (r: Option<usize>)
    ensures
        match r {
            Some(i) => from <= i && occurs_at(v@, p@, i as int) && forall|j: int|
                from <= j < i ==> !occurs_at(v@, p@, j),
            None => forall|j: int| from <= j ==> !occurs_at(v@, p@, j),
        },
{
    if v.len() < p.len() {
        return None;
    }
    let last: usize = v.len() - p.len();
    let mut i: usize = from;
    while i <= last
        invariant
            from <= i,
            last + p@.len() == v@.len(),
            forall|j: int| from <= j < i ==> !occurs_at(v@, p@, j),
        decreases last + 1 - i,
    {
        if stands_at(v, p, i) {
            return Some(i);
        }
        if i == last {
            return None;
        }
        i += 1;
    }
    None
}

/// Whether `p` stands in `s`.
pub fn contains(s: &str, p: &str) -> (r: bool)
    ensures
        r == has(s@, p@),
{
    let v = chars_of(s);
    let q = chars_of(p);
    match find_from(&v, &q, 0) {
        Some(i) => true,
        None => false,
    }
}

/// Position of the first `p` in `v`, or its length where there is none.
pub fn find_first(v: &[char], p: &[char]) -> (i: usize)
    requires
        p@.len() > 0,
    ensures
        i == first_at(v@, p@),
        i <= v@.len(),
        i < v@.len() ==> i + p@.len() <= v@.len(),
{
    match find_from(v, p, 0) {
        Some(i) => {
            proof {
                lemma_first_at_is(v@, p@, i as int);
            }
            i
        },
        None => {
            let n: usize = v.len();
            proof {
                lemma_first_at_is(v@, p@, n as int);
            }
            n
        },
    }
}

/// Whether `s` begins with `p`.
pub fn starts_with(s: &str, p: &str) -> (r: bool)
    ensures
        r == begins(s@, p@),
{
    let v = chars_of(s);
    let q = chars_of(p);
    let r = stands_at(&v, &q, 0);
    assert(q@.len() <= v@.len() ==> v@.subrange(0, q@.len() as int) == v@.take(q@.len() as int));
    r
}

/// Whether `s` ends with `p`.
pub fn ends_with(s: &str, p: &str) -> (r: bool)
    ensures
        r == ends(s@, p@),
{
    let v = chars_of(s);
    let q = chars_of(p);
    if v.len() < q.len() {
        return false;
    }
    let at: usize = v.len() - q.len();
    let r = stands_at(&v, &q, at);
    assert(v@.subrange(at as int, at + q@.len()) == v@.skip(v@.len() - q@.len()));
    r
}

/// What follows `p` in `s`, where `s` begins with it.
pub fn strip_prefix<'a>(s: &'a str, p: &str) -> (r: Option<&'a str>)
    ensures
        match r {
            Some(t) => begins(s@, p@) && t@ == s@.skip(p@.len() as int),
            None => !begins(s@, p@),
        },
{
    if starts_with(s, p) {
        let n: usize = s.unicode_len();
        let k: usize = p.unicode_len();
        let t = s.substring_char(k, n);
        assert(t@ == s@.skip(p@.len() as int));
        Some(t)
    } else {
        None
    }
}

/// What precedes `p` in `s`, where `s` ends with it.
pub fn strip_suffix<'a>(s: &'a str, p: &str) -> (r: Option<&'a str>)
    ensures
        match r {
            Some(t) => ends(s@, p@) && t@ == s@.take(s@.len() - p@.len()),
            None => !ends(s@, p@),
        },
{
    if ends_with(s, p) {
        let n: usize = s.unicode_len();
        let k: usize = p.unicode_len();
        let t = s.substring_char(0, n - k);
        assert(t@ == s@.take(s@.len() - p@.len()));
        Some(t)
    } else {
        None
    }
}

/// `s` without the run of `c` at its end.
pub fn trim_end_char<'a>(s: &'a str, c: char) -> (r: &'a str)
    ensures
        r@ == trimmed_end(s@, c),
{
    let v = chars_of(s);
    let mut n: usize = v.len();
    assert(v@.take(n as int) == v@);
    while n > 0 && v[n - 1] == c
        invariant
            n <= v@.len(),
            v@ == s@,
            trimmed_end(s@, c) == trimmed_end(v@.take(n as int), c),
        decreases n,
    {
        assert(v@.take(n as int).drop_last() == v@.take(n - 1));
        n -= 1;
    }
    let r = s.substring_char(0, n);
    assert(r@ == v@.take(n as int));
    assert(n > 0 ==> v@.take(n as int).last() == v@[n - 1]);
    r
}

/// `s` with the suffix `p` taken off as often as it stands at the end.
pub fn trim_end_str<'a>(s: &'a str, p: &str) -> (r: &'a str)
    requires
        p@.len() > 0,
    ensures
        r@ == trimmed_end_all(s@, p@),
{
    let mut r = s;
    let mut n: usize = s.unicode_len();
    loop
        invariant_except_break
            p@.len() > 0,
            n == r@.len(),
            trimmed_end_all(s@, p@) == trimmed_end_all(r@, p@),
        ensures
            r@ == trimmed_end_all(s@, p@),
        decreases n,
    {
        match strip_suffix(r, p) {
            Some(t) => {
                n = t.unicode_len();
                r = t;
            },
            None => {
                break;
            },
        }
    }
    r
}

/// `s` without the run of `c` at its start.
pub fn trim_start_char<'a>(s: &'a str, c: char) -> (r: &'a str)
    ensures
        r@ == trimmed_start(s@, c),
{
    let v = chars_of(s);
    let n: usize = v.len();
    let mut i: usize = 0;
    assert(v@.skip(0) == v@);
    while i < n && v[i] == c
        invariant
            i <= n,
            n == v@.len(),
            v@ == s@,
            trimmed_start(s@, c) == trimmed_start(v@.skip(i as int), c),
        decreases n - i,
    {
        assert(v@.skip(i as int).drop_first() == v@.skip(i + 1));
        i += 1;
    }
    let r = s.substring_char(i, n);
    assert(r@ == v@.skip(i as int));
    r
}

/// `s` with the prefix `p` taken off as often as it stands at the start.
pub fn trim_start_str<'a>(s: &'a str, p: &str) -> (r: &'a str)
    requires
        p@.len() > 0,
    ensures
        r@ == trimmed_start_all(s@, p@),
{
    let mut r = s;
    let mut n: usize = s.unicode_len();
    loop
        invariant_except_break
            p@.len() > 0,
            n == r@.len(),
            trimmed_start_all(s@, p@) == trimmed_start_all(r@, p@),
        ensures
            r@ == trimmed_start_all(s@, p@),
        decreases n,
    {
        match strip_prefix(r, p) {
            Some(t) => {
                n = t.unicode_len();
                r = t;
            },
            None => {
                break;
            },
        }
    }
    r
}

proof fn lemma_last_at(s: Seq<char>, c: char)
    ensures
        -1 <= last_at(s, c) < s.len(),
        s.contains(c) <==> last_at(s, c) >= 0,
    decreases s.len(),
{
    if s.len() > 0 {
        if s.last() == c {
            assert(s[s.len() - 1] == c);
        } else {
            lemma_last_at(s.drop_last(), c);
            if s.contains(c) {
                let i = choose|i: int| 0 <= i < s.len() && s[i] == c;
                assert(s.drop_last()[i] == c);
            }
            if s.drop_last().contains(c) {
                let i = choose|i: int| 0 <= i < s.len() - 1 && s.drop_last()[i] == c;
                assert(s[i] == c);
            }
        }
    }
}

/// What stands before the last `c` of `s`, all of it where there is none.
pub fn head_before_last<'a>(s: &'a str, c: char) -> (r: &'a str)
    ensures
        r@ == before_last(s@, c),
{
    let v = chars_of(s);
    let mut n: usize = v.len();
    proof {
        lemma_last_at(s@, c);
    }
    assert(v@.take(n as int) == v@);
    while n > 0
        invariant
            n <= v@.len(),
            v@ == s@,
            last_at(s@, c) == last_at(v@.take(n as int), c),
            s@.contains(c) <==> last_at(s@, c) >= 0,
        decreases n,
    {
        assert(v@.take(n as int).last() == v@[n - 1]);
        if v[n - 1] == c {
            let r = s.substring_char(0, n - 1);
            assert(r@ == v@.take(n - 1));
            return r;
        }
        assert(v@.take(n as int).drop_last() == v@.take(n - 1));
        n -= 1;
    }
    s
}

/// The texts of a list, each once, where it stands first.
pub open spec fn distinct(s: Seq<Seq<char>>) -> Seq<Seq<char>>
    decreases s.len(),
{
    if s.len() == 0 {
        Seq::empty()
    } else {
        with_text(distinct(s.drop_last()), s.last())
    }
}

/// The list with the text, which is added at the end unless it is there.
pub open spec fn with_text(s: Seq<Seq<char>>, x: Seq<char>) -> Seq<Seq<char>> {
    if s.contains(x) {
        s
    } else {
        s.push(x)
    }
}

/// Adds a text to a list unless it is there.
pub fn add_text(list: &mut Vec<String>, x: &str)
    ensures
        texts(final(list)@) == with_text(texts(old(list)@), x@),
{
    if !list_has(list, x) {
        push_text(list, String::from_str(x));
    }
}

/// What stands before the first `c` of `s`, all of it where there is none.
pub fn before_first<'a>(s: &'a str, c: char) -> (r: &'a str)
    ensures
        r@ == s@.take(cut(s@, c)),
{
    let v = chars_of(s);
    let k: usize = cut_at(&v, c);
    let r = s.substring_char(0, k);
    assert(r@ == s@.take(k as int));
    r
}

/// What stands behind the first `c` of `s`, nothing where there is none.
pub open spec fn behind_first(s: Seq<char>, c: char) -> Seq<char> {
    if cut(s, c) < s.len() {
        s.skip(cut(s, c) + 1)
    } else {
        Seq::empty()
    }
}

/// What stands behind the first `c` of `s`, nothing where there is none.
pub fn after_first<'a>(s: &'a str, c: char) -> (r: &'a str)
    ensures
        r@ == behind_first(s@, c),
{
    let v = chars_of(s);
    let k: usize = cut_at(&v, c);
    let n: usize = v.len();
    let from: usize = if k < n {
        k + 1
    } else {
        n
    };
    let r = s.substring_char(from, n);
    assert(r@ =~= behind_first(s@, c));
    r
}

/// Whether `c` is white space.
pub fn space(c: char) -> (r: bool)
    ensures
        r == is_space(c),
{
    ('\u{9}' <= c && c <= '\u{d}') || c == ' ' || c == '\u{85}' || c == '\u{a0}' || c == '\u{1680}'
        || ('\u{2000}' <= c && c <= '\u{200a}') || c == '\u{2028}' || c == '\u{2029}' || c
        == '\u{202f}' || c == '\u{205f}' || c == '\u{3000}'
}

/// `s` without the white space at either end.
pub fn trim<'a>(s: &'a str) -> (r: &'a str)
    ensures
        r@ == trimmed(s@),
{
    let v = chars_of(s);
    let mut a: usize = 0;
    assert(v@.skip(0) == v@);
    while a < v.len() && space(v[a])
        invariant
            a <= v@.len(),
            trimmed_left(s@) == trimmed_left(v@.skip(a as int)),
        decreases v@.len() - a,
    {
        assert(v@.skip(a as int).drop_first() == v@.skip(a + 1));
        a += 1;
    }
    assert(a < v@.len() ==> v@.skip(a as int)[0] == v@[a as int]);
    assert(trimmed_left(s@) == v@.skip(a as int));
    let mut n: usize = v.len();
    assert(v@.subrange(a as int, n as int) == v@.skip(a as int));
    while n > a && space(v[n - 1])
        invariant
            a <= n <= v@.len(),
            trimmed(s@) == trimmed_right(v@.subrange(a as int, n as int)),
        decreases n,
    {
        assert(v@.subrange(a as int, n as int).drop_last() == v@.subrange(a as int, n - 1));
        n -= 1;
    }
    assert(n > a ==> v@.subrange(a as int, n as int).last() == v@[n - 1]);
    s.substring_char(a, n)
}

/// `s` with each `c` replaced by `with`.
pub fn replace_char(s: &str, c: char, with: &str) -> (r: String)
    ensures
        r@ == replaced(s@, c, with@),
{
    let v = chars_of(s);
    let mut r = String::new();
    let mut i: usize = 0;
    while i < v.len()
        invariant
            i <= v@.len(),
            r@ == replaced(v@.take(i as int), c, with@),
        decreases v@.len() - i,
    {
        assert(v@.take(i as int + 1).drop_last() == v@.take(i as int));
        if v[i] == c {
            r.append(with);
        } else {
            let ghost before = r@;
            r.push(v[i]);
            assert(r@ == before + seq![v@[i as int]]);
        }
        i += 1;
    }
    assert(v@.take(v@.len() as int) == v@);
    r
}

/// The pieces of `s` between the occurrences of `c`.
pub fn split_on(s: &str, c: char) -> (r: Vec<String>)
    ensures
        texts(r@) == split(s@, c),
{
    let v = chars_of(s);
    let mut r: Vec<String> = Vec::new();
    let mut from: usize = 0;
    assert(v@.skip(0) == v@);
    assert(texts(r@) == Seq::<Seq<char>>::empty());
    assert(Seq::<Seq<char>>::empty() + split(v@, c) == split(v@, c));
    loop
        invariant
            from <= v@.len(),
            v@ == s@,
            split(s@, c) == texts(r@) + split(v@.skip(from as int), c),
        decreases v@.len() + 1 - from,
    {
        let ghost rest = v@.skip(from as int);
        let tail: &[char] = &v[from..v.len()];
        assert(tail@ == rest);
        let k: usize = cut_at(tail, c);
        proof {
            lemma_cut_bounds(rest, c);
        }
        let piece = string_of(&tail[0..k]);
        assert(piece@ == rest.take(k as int));
        let ghost before = r@;
        r.push(piece);
        assert(texts(r@) == texts(before).push(piece@));
        if k == tail.len() {
            assert(rest.take(k as int) == rest);
            assert(split(rest, c) == seq![rest]);
            assert(texts(r@) == texts(before) + seq![rest]);
            return r;
        }
        assert(v@.skip(from + k + 1) == rest.skip(k as int + 1));
        assert(texts(r@) + split(rest.skip(k as int + 1), c) == texts(before) + (seq![
            rest.take(k as int),
        ] + split(rest.skip(k as int + 1), c)));
        from = from + k + 1;
    }
}

/// The lines of `s`.
pub fn lines_of(s: &str) -> (r: Vec<String>)
    ensures
        texts(r@) == lines(s@),
{
    let v = chars_of(s);
    let n: usize = v.len();
    let mut r: Vec<String> = Vec::new();
    let mut from: usize = 0;
    assert(v@.skip(0) == v@);
    assert(texts(r@) + lines(v@) =~= lines(v@));
    while from < n
        invariant
            from <= n,
            n == v@.len(),
            lines(s@) == texts(r@) + lines(v@.skip(from as int)),
        decreases n - from,
    {
        let ghost rest = v@.skip(from as int);
        let ghost before = r@;
        let tail: &[char] = &v[from..n];
        assert(tail@ == rest);
        let k: usize = cut_at(tail, '\n');
        if k >= n - from {
            let piece = string_of(tail);
            r.push(piece);
            assert(texts(r@) =~= texts(before) + seq![rest]);
            return r;
        }
        let end: usize = if k > 0 && tail[k - 1] == '\r' {
            k - 1
        } else {
            k
        };
        let piece = string_of(&tail[0..end]);
        assert(k > 0 ==> rest.take(k as int).last() == rest[k - 1]);
        assert(piece@ == without_cr(rest.take(k as int)));
        r.push(piece);
        assert(v@.skip(from + k + 1) == rest.skip(k + 1));
        assert(texts(r@) + lines(rest.skip(k + 1)) =~= texts(before) + (seq![
            without_cr(rest.take(k as int)),
        ] + lines(rest.skip(k + 1))));
        from = from + k + 1;
    }
    assert(v@.skip(n as int) == Seq::<char>::empty());
    assert(texts(r@) + Seq::<Seq<char>>::empty() =~= texts(r@));
    r
}

/// The words of `s`.
pub fn words_of(s: &str) -> (r: Vec<String>)
    ensures
        texts(r@) == words(s@),
{
    let v = chars_of(s);
    let n: usize = v.len();
    let mut r: Vec<String> = Vec::new();
    let mut at: usize = 0;
    assert(v@.skip(0) == v@);
    assert(texts(r@) + words(v@) =~= words(v@));
    while at < n
        invariant
            at <= n,
            n == v@.len(),
            words(s@) == texts(r@) + words(v@.skip(at as int)),
        decreases n - at,
    {
        let ghost rest = v@.skip(at as int);
        assert(rest[0] == v@[at as int]);
        if space(v[at]) {
            assert(rest.drop_first() == v@.skip(at + 1));
            at += 1;
        } else {
            let mut k: usize = 0;
            assert(rest.skip(0) == rest);
            while at + k < n && !space(v[at + k])
                invariant
                    at + k <= n,
                    n == v@.len(),
                    rest == v@.skip(at as int),
                    solid_len(rest) == k + solid_len(rest.skip(k as int)),
                decreases n - at - k,
            {
                assert(rest.skip(k as int)[0] == v@[at + k]);
                assert(rest.skip(k as int).drop_first() == rest.skip(k + 1));
                k += 1;
            }
            assert(at + k < n ==> rest.skip(k as int)[0] == v@[at + k]);
            proof {
                lemma_solid_bounds(rest);
            }
            let piece = string_of(&v[at..at + k]);
            assert(piece@ == rest.take(k as int));
            let ghost before = r@;
            r.push(piece);
            assert(v@.skip(at + k) == rest.skip(k as int));
            assert(texts(r@) + words(rest.skip(k as int)) =~= texts(before) + (seq![
                rest.take(k as int),
            ] + words(rest.skip(k as int))));
            at = at + k;
        }
    }
    assert(v@.skip(n as int) == Seq::<char>::empty());
    assert(texts(r@) + Seq::<Seq<char>>::empty() =~= texts(r@));
    r
}

/// Whether one of the texts of the list is `x`.
pub fn list_has(list: &Vec<String>, x: &str) -> (r: bool)
    ensures
        r == texts(list@).contains(x@),
{
    let mut i: usize = 0;
    while i < list.len()
        invariant
            i <= list@.len(),
            forall|j: int| 0 <= j < i ==> (#[trigger] texts(list@)[j]) != x@,
        decreases list@.len() - i,
    {
        if same(list[i].as_str(), x) {
            assert(texts(list@)[i as int] == x@);
            return true;
        }
        i += 1;
    }
    false
}

/// The same texts once more.
pub fn copy_list(list: &Vec<String>) -> (r: Vec<String>)
    ensures
        texts(r@) == texts(list@),
{
    let mut r: Vec<String> = Vec::new();
    let mut i: usize = 0;
    while i < list.len()
        invariant
            i <= list@.len(),
            r@.len() == i,
            forall|j: int| 0 <= j < i ==> (#[trigger] r@[j])@ == list@[j]@,
        decreases list@.len() - i,
    {
        r.push(list[i].clone());
        i += 1;
    }
    assert(texts(r@) =~= texts(list@));
    r
}

/// Adds a text to a list.
pub fn push_text(list: &mut Vec<String>, x: String)
    ensures
        texts(final(list)@) == texts(old(list)@).push(x@),
{
    list.push(x);
    assert(texts(list@) =~= texts(old(list)@).push(x@));
}

/// The pieces put one after another, with `sep` between neighbours.
pub fn join_with(parts: &Vec<String>, sep: &str) -> (r: String)
    ensures
        r@ == join(texts(parts@), sep@),
{
    let mut r = String::new();
    let mut i: usize = 0;
    let ghost all = texts(parts@);
    while i < parts.len()
        invariant
            i <= parts@.len(),
            all == texts(parts@),
            r@ == join(all.take(i as int), sep@),
        decreases parts@.len() - i,
    {
        assert(all.take(i as int + 1).drop_last() == all.take(i as int));
        assert(all.take(i as int + 1).last() == parts@[i as int]@);
        if i > 0 {
            r.append(sep);
        }
        r.append(parts[i].as_str());
        assert(i == 0 ==> r@ == parts@[0]@);
        i += 1;
    }
    assert(all.take(all.len() as int) == all);
    r
}

/// `a` followed by `b`.
pub fn cat2(a: &str, b: &str) -> (r: String)
    ensures
        r@ == a@ + b@,
{
    let mut r = String::from_str(a);
    r.append(b);
    r
}

/// The three texts one after another.
pub fn cat3(a: &str, b: &str, c: &str) -> (r: String)
    ensures
        r@ == a@ + b@ + c@,
{
    let mut r = cat2(a, b);
    r.append(c);
    r
}

/// The four texts one after another.
pub fn cat4(a: &str, b: &str, c: &str, d: &str) -> (r: String)
    ensures
        r@ == a@ + b@ + c@ + d@,
{
    let mut r = cat3(a, b, c);
    r.append(d);
    r
}

/// The five texts one after another.
pub fn cat5(a: &str, b: &str, c: &str, d: &str, e: &str) -> (r: String)
    ensures
        r@ == a@ + b@ + c@ + d@ + e@,
{
    let mut r = cat4(a, b, c, d);
    r.append(e);
    r
}

/// The distinct texts of a list are those of the list, each once.
pub proof fn law_distinct_texts_are_all_of_them(s: Seq<Seq<char>>)
    ensures
        forall|x: Seq<char>| #[trigger] distinct(s).contains(x) <==> s.contains(x),
        distinct(s).no_duplicates(),
    decreases s.len(),
{
    if s.len() > 0 {
        let short = s.drop_last();
        let before = distinct(short);
        let now = distinct(s);
        law_distinct_texts_are_all_of_them(short);
        assert forall|x: Seq<char>| #[trigger] now.contains(x) <==> s.contains(x) by {
            if s.contains(x) {
                let k = choose|k: int| 0 <= k < s.len() && s[k] == x;
                if k < short.len() {
                    assert(short[k] == x);
                    assert(before.contains(x));
                    let j = choose|j: int| 0 <= j < before.len() && before[j] == x;
                    assert(now[j] == x);
                } else if !before.contains(x) {
                    assert(now[before.len() as int] == x);
                }
            }
            if now.contains(x) {
                let j = choose|j: int| 0 <= j < now.len() && now[j] == x;
                if j < before.len() {
                    assert(before[j] == x);
                    assert(before.contains(x));
                    assert(short.contains(x));
                    let k = choose|k: int| 0 <= k < short.len() && short[k] == x;
                    assert(s[k] == x);
                } else {
                    assert(s[s.len() - 1] == x);
                }
            }
        }
    } else {
        assert forall|x: Seq<char>| #[trigger] distinct(s).contains(x) <==> s.contains(x) by {}
    }
}

/// A text is its pieces with the separator between them, and no piece holds the separator.
pub proof fn law_pieces_make_up_the_text(s: Seq<char>, c: char)
    ensures
        split(s, c).len() > 0,
        s == joined_by(split(s, c), c),
        forall|i: int| 0 <= i < split(s, c).len() ==> !(#[trigger] split(s, c)[i]).contains(c),
    decreases s.len(),
{
    lemma_cut_bounds(s, c);
    let i = cut(s, c);
    if i >= s.len() {
        assert(split(s, c) =~= seq![s]);
        assert(!s.contains(c));
    } else {
        let rest = s.skip(i + 1);
        let tail = split(rest, c);
        law_pieces_make_up_the_text(rest, c);
        let all = split(s, c);
        assert(all =~= seq![s.take(i)] + tail);
        assert(all.drop_first() =~= tail);
        assert(s.take(i) + seq![c] + rest =~= s);
        assert forall|k: int| 0 <= k < all.len() implies !(#[trigger] all[k]).contains(c) by {
            if k == 0 {
                if s.take(i).contains(c) {
                    let j = choose|j: int| 0 <= j < i && s.take(i)[j] == c;
                    assert(s[j] == c);
                }
            } else {
                assert(all[k] == tail[k - 1]);
            }
        }
    }
}

/// The pieces one after another, with `c` between neighbours.
pub open spec fn joined_by(parts: Seq<Seq<char>>, c: char) -> Seq<char>
    decreases parts.len(),
{
    if parts.len() == 0 {
        Seq::empty()
    } else if parts.len() == 1 {
        parts[0]
    } else {
        parts[0] + seq![c] + joined_by(parts.drop_first(), c)
    }
}

/// A text up to its first line feed is its first line, without a carriage return at its end,
/// and the others are those of the rest; a text without a line feed is one line.
pub proof fn law_lines_end_at_line_feeds(a: Seq<char>, rest: Seq<char>)
    requires
        !a.contains('\n'),
    ensures
        a.len() == 0 || a.last() != '\r' ==> lines(a + seq!['\n'] + rest) == seq![a] + lines(rest),
        a.len() > 0 ==> lines(a) == seq![a],
        lines(Seq::empty()) == Seq::<Seq<char>>::empty(),
{
    let s = a + seq!['\n'] + rest;
    let k = a.len() as int;
    assert(s[k] == '\n');
    assert forall|i: int| 0 <= i < k implies (#[trigger] s[i]) != '\n' by {
        assert(s[i] == a[i]);
        if a[i] == '\n' {
            assert(a.contains('\n'));
        }
    }
    lemma_cut_is(s, '\n', k);
    assert(s.take(k) =~= a);
    assert(s.skip(k + 1) =~= rest);
    lemma_cut_bounds(a, '\n');
}

/// The words of a text are the runs without white space in it, in order.
pub proof fn law_words_are_the_solid_runs(w: Seq<char>, c: char, rest: Seq<char>)
    requires
        w.len() > 0,
        forall|i: int| 0 <= i < w.len() ==> !is_space(#[trigger] w[i]),
        is_space(c),
    ensures
        words(w) == seq![w],
        words(w + seq![c] + rest) == seq![w] + words(rest),
        words(seq![c] + rest) == words(rest),
{
    let none = Seq::<char>::empty();
    lemma_solid_is(w, none);
    assert(w + none =~= w);
    assert(w.take(w.len() as int) =~= w);
    assert(w.skip(w.len() as int) =~= none);
    assert(words(none) =~= Seq::<Seq<char>>::empty());
    assert(words(w) =~= seq![w]);
    let tail = seq![c] + rest;
    let s = w + seq![c] + rest;
    assert(s =~= w + tail);
    assert(tail[0] == c);
    lemma_solid_is(w, tail);
    assert(s[0] == w[0]);
    assert(s.take(w.len() as int) =~= w);
    assert(s.skip(w.len() as int) =~= tail);
    assert(tail.drop_first() =~= rest);
    assert(words(tail) == words(rest));
    assert(words(s) == seq![w] + words(tail));
}

proof fn lemma_solid_is(w: Seq<char>, tail: Seq<char>)
    requires
        forall|i: int| 0 <= i < w.len() ==> !is_space(#[trigger] w[i]),
        tail.len() > 0 ==> is_space(tail[0]),
    ensures
        solid_len(w + tail) == w.len(),
    decreases w.len(),
{
    if w.len() > 0 {
        let t = w.drop_first();
        assert(forall|i: int| 0 <= i < t.len() ==> (#[trigger] t[i]) == w[i + 1]);
        lemma_solid_is(t, tail);
        assert((w + tail).drop_first() =~= t + tail);
        assert((w + tail)[0] == w[0]);
    } else {
        assert(w + tail =~= tail);
    }
}

/// Trimming takes off white space at both ends and nothing else.
pub proof fn law_trimming_takes_off_white_space(s: Seq<char>)
    requires
        s.len() > 0 ==> !is_space(s[0]) && !is_space(s.last()),
    ensures
        trimmed(s) == s,
{
}

/// Leading characters of one kind are taken off, all of them and nothing else.
pub proof fn law_leading_characters_are_taken_off(s: Seq<char>, c: char)
    ensures
        s.len() == 0 || s[0] != c ==> trimmed_start(s, c) == s,
        trimmed_start(seq![c] + s, c) == trimmed_start(s, c),
{
    assert((seq![c] + s).drop_first() =~= s);
}

/// White space at either end of a text goes, however much of it there is, and what is left
/// has none at its ends.
pub proof fn law_white_space_at_the_ends_goes(s: Seq<char>, c: char)
    ensures
        is_space(c) ==> trimmed(seq![c] + s) == trimmed(s),
        is_space(c) ==> trimmed(s.push(c)) == trimmed(s),
        trimmed(s).len() > 0 ==> !is_space(trimmed(s)[0]) && !is_space(trimmed(s).last()),
    decreases s.len(),
{
    assert((seq![c] + s).drop_first() =~= s);
    lemma_left(s);
    lemma_right(trimmed_left(s));
    if is_space(c) {
        lemma_left_of_longer(s, c);
    }
}

proof fn lemma_left(s: Seq<char>)
    ensures
        trimmed_left(s).len() > 0 ==> !is_space(trimmed_left(s)[0]),
    decreases s.len(),
{
    if s.len() > 0 && is_space(s[0]) {
        lemma_left(s.drop_first());
    }
}

proof fn lemma_right(s: Seq<char>)
    ensures
        trimmed_right(s).len() > 0 ==> !is_space(trimmed_right(s).last()) && trimmed_right(s)[0]
            == s[0],
        trimmed_right(s).len() <= s.len(),
    decreases s.len(),
{
    if s.len() > 0 && is_space(s.last()) {
        lemma_right(s.drop_last());
    }
}

proof fn lemma_left_of_longer(s: Seq<char>, c: char)
    requires
        is_space(c),
    ensures
        trimmed_right(trimmed_left(s.push(c))) == trimmed_right(trimmed_left(s)),
    decreases s.len(),
{
    let l = s.push(c);
    if s.len() == 0 {
        assert(l.drop_first() =~= s);
    } else if is_space(s[0]) {
        assert(l.drop_first() =~= s.drop_first().push(c));
        lemma_left_of_longer(s.drop_first(), c);
    } else {
        assert(l.drop_last() =~= s);
    }
}

/// Characters of one kind at the end of a text go, all of them and nothing else.
pub proof fn law_trailing_characters_are_taken_off(s: Seq<char>, c: char)
    ensures
        s.len() == 0 || s.last() != c ==> trimmed_end(s, c) == s,
        trimmed_end(s.push(c), c) == trimmed_end(s, c),
{
    assert(s.push(c).drop_last() =~= s);
}

/// A piece of text at the start or the end of a text goes as often as it stands there, and
/// what does not stand there stays.
pub proof fn law_repeated_ends_are_taken_off(s: Seq<char>, pat: Seq<char>)
    requires
        pat.len() > 0,
    ensures
        trimmed_start_all(pat + s, pat) == trimmed_start_all(s, pat),
        !begins(s, pat) ==> trimmed_start_all(s, pat) == s,
        trimmed_end_all(s + pat, pat) == trimmed_end_all(s, pat),
        !ends(s, pat) ==> trimmed_end_all(s, pat) == s,
{
    assert((pat + s).take(pat.len() as int) =~= pat);
    assert((pat + s).skip(pat.len() as int) =~= s);
    assert((s + pat).take(s.len() as int) =~= s);
    assert((s + pat).skip(s.len() as int) =~= pat);
}

/// Replacing a character leaves all others as they are and in their order.
pub proof fn law_only_one_character_is_replaced(s: Seq<char>, t: Seq<char>, c: char, with: Seq<char>)
    ensures
        replaced(s + t, c, with) == replaced(s, c, with) + replaced(t, c, with),
        replaced(seq![c], c, with) == with,
        !s.contains(c) ==> replaced(s, c, with) == s,
    decreases s.len() + t.len(),
{
    assert(seq![c].drop_last() =~= Seq::<char>::empty());
    assert(replaced(seq![c].drop_last(), c, with) =~= Seq::<char>::empty());
    assert(replaced(seq![c], c, with) =~= with);
    if t.len() == 0 {
        assert(s + t =~= s);
        assert(replaced(s, c, with) + replaced(t, c, with) =~= replaced(s, c, with));
    } else {
        law_only_one_character_is_replaced(s, t.drop_last(), c, with);
        assert((s + t).drop_last() =~= s + t.drop_last());
        assert(replaced(s + t, c, with) =~= replaced(s, c, with) + replaced(t, c, with));
    }
    if !s.contains(c) && s.len() > 0 {
        assert(s.last() != c) by {
            assert(s[s.len() - 1] == s.last());
        }
        assert(!s.drop_last().contains(c)) by {
            if s.drop_last().contains(c) {
                let k = choose|k: int| 0 <= k < s.drop_last().len() && s.drop_last()[k] == c;
                assert(s[k] == c);
            }
        }
        law_only_one_character_is_replaced(s.drop_last(), Seq::empty(), c, with);
        assert(s =~= s.drop_last().push(s.last()));
    }
}

/// A text cut at a character falls into the pieces that it was put together from, where none
/// of these holds the character.
pub proof fn law_joined_pieces_are_found_again(parts: Seq<Seq<char>>, c: char)
    requires
        parts.len() > 0,
        forall|i: int| 0 <= i < parts.len() ==> !(#[trigger] parts[i]).contains(c),
    ensures
        split(joined_by(parts, c), c) == parts,
    decreases parts.len(),
{
    let s = joined_by(parts, c);
    let a = parts[0];
    assert(!a.contains(c));
    assert forall|j: int| 0 <= j < a.len() implies a[j] != c by {
        if a[j] == c {
            assert(a.contains(c));
        }
    }
    if parts.len() == 1 {
        lemma_cut_is(s, c, s.len() as int);
        assert(split(s, c) =~= parts);
    } else {
        let tail = parts.drop_first();
        assert forall|i: int| 0 <= i < tail.len() implies !(#[trigger] tail[i]).contains(c) by {
            assert(tail[i] == parts[i + 1]);
        }
        law_joined_pieces_are_found_again(tail, c);
        let rest = joined_by(tail, c);
        assert(s =~= a + seq![c] + rest);
        lemma_cut_is(s, c, a.len() as int);
        assert(s.take(a.len() as int) =~= a);
        assert(s.skip(a.len() as int + 1) =~= rest);
        assert(split(s, c) =~= parts);
    }
}

/// What stands behind the first and before the last of a character is told by where it
/// stands.
pub proof fn law_texts_are_cut_at_a_character(a: Seq<char>, b: Seq<char>, c: char)
    ensures
        !a.contains(c) ==> behind_first(a + seq![c] + b, c) == b && behind_first(a, c).len() == 0,
        !b.contains(c) ==> before_last(a + seq![c] + b, c) == a && before_last(b, c) == b,
{
    let s = a + seq![c] + b;
    assert(s[a.len() as int] == c);
    if !a.contains(c) {
        assert forall|j: int| 0 <= j < a.len() implies a[j] != c by {
            if a[j] == c {
                assert(a.contains(c));
            }
        }
        lemma_cut_is(s, c, a.len() as int);
        lemma_cut_is(a, c, a.len() as int);
        assert(s.skip(a.len() as int + 1) =~= b);
    }
    if !b.contains(c) {
        lemma_last_of(a, b, c);
        assert(s.take(a.len() as int) =~= a);
        assert(s.contains(c));
    }
}

proof fn lemma_last_of(a: Seq<char>, b: Seq<char>, c: char)
    requires
        !b.contains(c),
    ensures
        last_at(a + seq![c] + b, c) == a.len(),
    decreases b.len(),
{
    let s = a + seq![c] + b;
    if b.len() > 0 {
        assert(b[b.len() - 1] == b.last());
        assert(s.drop_last() =~= a + seq![c] + b.drop_last());
        assert(!b.drop_last().contains(c)) by {
            if b.drop_last().contains(c) {
                let k = choose|k: int| 0 <= k < b.drop_last().len() && b.drop_last()[k] == c;
                assert(b[k] == c);
            }
        }
        lemma_last_of(a, b.drop_last(), c);
    }
}

/// A piece is found where it stands first, and at the end of the text where it stands
/// nowhere.
pub proof fn law_the_first_place_is_found(s: Seq<char>, pat: Seq<char>, i: int)
    requires
        pat.len() > 0,
    ensures
        occurs_at(s, pat, i) && (forall|j: int| 0 <= j < i ==> !occurs_at(s, pat, j)) ==> first_at(
            s,
            pat,
        ) == i,
        has(s, pat) || first_at(s, pat) == s.len(),
{
    if occurs_at(s, pat, i) && (forall|j: int| 0 <= j < i ==> !occurs_at(s, pat, j)) {
        lemma_first_at_is(s, pat, i);
    }
    if !(has(s, pat)) {
        lemma_first_at_is(s, pat, s.len() as int);
    }
}

} // verus!
