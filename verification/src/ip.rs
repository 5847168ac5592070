//! Textual IP addresses: which texts are addresses, and which of these are loopback ones.

use crate::number;
use crate::text;
use vstd::prelude::*;
use vstd::string::*;

verus! {

/// `s` is a number from 0 to 255 in decimal, without leading zeros.
pub open spec fn is_octet(s: Seq<char>) -> bool {
    number::all_digits(s) && s.len() <= 3 && (s.len() == 1 || s[0] != '0')
        && number::digits_value(s) <= 255
}

/// `s` is an IPv4 address: four octets with dots between them.
pub open spec fn is_v4(s: Seq<char>) -> bool {
    let p = text::split(s, '.');
    p.len() == 4 && is_octet(p[0]) && is_octet(p[1]) && is_octet(p[2]) && is_octet(p[3])
}

/// The number that part `i` of an IPv4 address writes.
pub open spec fn v4_part(s: Seq<char>, i: int) -> int {
    number::digits_value(text::split(s, '.')[i])
}

/// `c` is a hexadecimal digit.
pub open spec fn is_hex(c: char) -> bool {
    '0' <= c <= '9' || 'a' <= c <= 'f' || 'A' <= c <= 'F'
}

/// The value of a hexadecimal digit.
pub open spec fn hex_digit_value(c: char) -> int {
    if '0' <= c <= '9' {
        c as int - '0' as int
    } else if 'a' <= c <= 'f' {
        c as int - 'a' as int + 10
    } else {
        c as int - 'A' as int + 10
    }
}

/// The number that the hexadecimal digits `s` write.
pub open spec fn hex_value(s: Seq<char>) -> int
    decreases s.len(),
{
    if s.len() == 0 {
        0
    } else {
        16 * hex_value(s.drop_last()) + hex_digit_value(s.last())
    }
}

/// `s` is a group of an IPv6 address: one to four hexadecimal digits.
pub open spec fn is_group(s: Seq<char>) -> bool {
    1 <= s.len() <= 4 && forall|i: int| 0 <= i < s.len() ==> is_hex(#[trigger] s[i])
}

/// The values of the groups `parts`, where each is one; an IPv4 address may stand for
/// the last two.
pub open spec fn group_values(parts: Seq<Seq<char>>) -> Option<Seq<int>>
    decreases parts.len(),
{
    if parts.len() == 0 {
        Some(Seq::empty())
    } else if parts.len() == 1 && is_v4(parts[0]) {
        Some(
            seq![
                256 * v4_part(parts[0], 0) + v4_part(parts[0], 1),
                256 * v4_part(parts[0], 2) + v4_part(parts[0], 3),
            ],
        )
    } else if is_group(parts[0]) {
        match group_values(parts.drop_first()) {
            Some(r) => Some(seq![hex_value(parts[0])] + r),
            None => None,
        }
    } else {
        None
    }
}

/// The groups of one side of an IPv6 address.
pub open spec fn side_values(s: Seq<char>) -> Option<Seq<int>> {
    if s.len() == 0 {
        Some(Seq::empty())
    } else {
        group_values(text::split(s, ':'))
    }
}

/// Position of the first `::` in `s`, or a position with no room for one.
pub open spec fn gap(s: Seq<char>) -> int {
    crate::expand::pair_at(s, ':', ':')
}

/// `v` is nothing but zeros.
pub open spec fn all_zero(v: Seq<int>) -> bool {
    forall|i: int| 0 <= i < v.len() ==> (#[trigger] v[i]) == 0
}

/// `v` is zeros and a final one.
pub open spec fn ends_in_one(v: Seq<int>) -> bool {
    v.len() > 0 && v.last() == 1 && all_zero(v.drop_last())
}

/// `s` writes the IPv6 address ::1, in any of its forms.
pub open spec fn is_v6_loopback(s: Seq<char>) -> bool {
    let g = gap(s);
    if g + 1 >= s.len() {
        side_values(s) matches Some(v) && v.len() == 8 && ends_in_one(v)
    } else {
        let head = s.take(g);
        &&& !head.contains('.')
        &&& side_values(head) matches Some(h) && side_values(s.skip(g + 2)) matches Some(t)
            && h.len() + t.len() <= 7 && all_zero(h) && ends_in_one(t)
    }
}

/// `s` is an IPv6 address: eight groups, or fewer with one `::` in the place of the others;
/// an IPv4 address may stand for the last two.
pub open spec fn is_v6(s: Seq<char>) -> bool {
    let g = gap(s);
    if g + 1 >= s.len() {
        side_values(s) matches Some(v) && v.len() == 8
    } else {
        let head = s.take(g);
        &&& !head.contains('.')
        &&& side_values(head) matches Some(h) && side_values(s.skip(g + 2)) matches Some(t)
            && h.len() + t.len() <= 7
    }
}

/// `s` is an IPv4 or an IPv6 address.
pub open spec fn is_address(s: Seq<char>) -> bool {
    is_v4(s) || is_v6(s)
}

/// A loopback address is an address.
pub proof fn law_loopback_addresses_are_addresses(s: Seq<char>)
    ensures
        is_loopback(s) ==> is_address(s),
{
}

/// `s` writes an address of 127.0.0.0/8, or ::1.
pub open spec fn is_loopback(s: Seq<char>) -> bool {
    (is_v4(s) && v4_part(s, 0) == 127) || (!is_v4(s) && is_v6_loopback(s))
}

/// The number that an octet writes.
fn octet(s: &str) -> (r: Option<u16>)
    ensures
        r == (if is_octet(s@) {
            Some(number::digits_value(s@) as u16)
        } else {
            None::<u16>
        }),
{
    let v = text::chars_of(s);
    let n: usize = v.len();
    if n == 0 || n > 3 || (n > 1 && v[0] == '0') {
        return None;
    }
    match number::read_digits(&v, 255) {
        Some(x) => {
            proof {
                number::lemma_digits_value_nonneg(s@);
            }
            Some(x as u16)
        },
        None => None,
    }
}

/// The four parts of an IPv4 address.
fn v4_parts(s: &str) -> (r: Option<(u16, u16, u16, u16)>)
    ensures
        match r {
            Some((a, b, c, d)) => is_v4(s@) && a == v4_part(s@, 0) && b == v4_part(s@, 1) && c
                == v4_part(s@, 2) && d == v4_part(s@, 3) && a <= 255 && b <= 255 && c <= 255 && d
                <= 255,
            None => !is_v4(s@),
        },
{
    let p = text::split_on(s, '.');
    let ghost q = text::split(s@, '.');
    if p.len() != 4 {
        assert(q.len() == p@.len());
        return None;
    }
    assert(q[0] == p@[0]@ && q[1] == p@[1]@ && q[2] == p@[2]@ && q[3] == p@[3]@);
    match (octet(p[0].as_str()), octet(p[1].as_str()), octet(p[2].as_str()), octet(p[3].as_str())) {
        (Some(a), Some(b), Some(c), Some(d)) => {
            proof {
                number::lemma_digits_value_nonneg(q[0]);
                number::lemma_digits_value_nonneg(q[1]);
                number::lemma_digits_value_nonneg(q[2]);
                number::lemma_digits_value_nonneg(q[3]);
            }
            Some((a, b, c, d))
        },
        _ => None,
    }
}

/// The value of a group.
fn group(s: &str) -> (r: Option<u32>)
    ensures
        (match r {
            Some(x) => Some(x as int),
            None => None::<int>,
        }) == (if is_group(s@) {
            Some(hex_value(s@))
        } else {
            None
        }),
{
    let v = text::chars_of(s);
    let n: usize = v.len();
    if n == 0 || n > 4 {
        return None;
    }
    let mut x: u32 = 0;
    let mut i: usize = 0;
    assert(v@.take(0) == Seq::<char>::empty());
    while i < n
        invariant
            i <= n,
            n == v@.len(),
            n <= 4,
            v@ == s@,
            forall|j: int| 0 <= j < i ==> is_hex(#[trigger] v@[j]),
            x == hex_value(v@.take(i as int)),
            i == 0 ==> x == 0,
            i <= 1 ==> x < 16,
            i <= 2 ==> x < 256,
            i <= 3 ==> x < 4096,
        decreases n - i,
    {
        let c = v[i];
        assert(v@.take(i as int + 1).drop_last() == v@.take(i as int));
        assert(v@.take(i as int + 1).last() == c);
        let d: u32 = if '0' <= c && c <= '9' {
            c as u32 - '0' as u32
        } else if 'a' <= c && c <= 'f' {
            c as u32 - 'a' as u32 + 10
        } else if 'A' <= c && c <= 'F' {
            c as u32 - 'A' as u32 + 10
        } else {
            assert(!is_hex(v@[i as int]));
            return None;
        };
        x = x * 16 + d;
        i += 1;
    }
    assert(v@.take(n as int) == v@);
    Some(x)
}

/// The groups of one side of an IPv6 address, as numbers.
fn side(s: &str) -> (r: Option<Vec<u32>>)
    ensures
        (match r {
            Some(v) => Some(v@.map_values(|x: u32| x as int)),
            None => None::<Seq<int>>,
        }) == side_values(s@),
{
    let mut r: Vec<u32> = Vec::new();
    let ghost num = |x: u32| x as int;
    if s.is_empty() {
        assert(r@.map_values(num) == Seq::<int>::empty());
        return Some(r);
    }
    let p = text::split_on(s, ':');
    let ghost q = text::texts(p@);
    let mut i: usize = 0;
    assert(q.skip(0) == q);
    proof {
        if let Some(t) = group_values(q) {
            assert(r@.map_values(num) + t == t);
        }
    }
    while i < p.len()
        invariant
            i <= p@.len(),
            q == text::texts(p@),
            num == (|x: u32| x as int),
            side_values(s@) == group_values(q),
            match group_values(q.skip(i as int)) {
                Some(t) => side_values(s@) == Some(r@.map_values(num) + t),
                None => side_values(s@) is None,
            },
        decreases p@.len() - i,
    {
        let ghost rest = q.skip(i as int);
        let ghost before = r@.map_values(num);
        assert(rest[0] == p@[i as int]@);
        assert(rest.drop_first() == q.skip(i + 1));
        if i + 1 == p.len() {
            assert(rest.len() == 1);
            if let Some((a, b, c, d)) = v4_parts(p[i].as_str()) {
                r.push(256 * a as u32 + b as u32);
                r.push(256 * c as u32 + d as u32);
                assert(r@.map_values(num) == before + group_values(rest)->0);
                return Some(r);
            }
        }
        match group(p[i].as_str()) {
            None => {
                assert(group_values(rest) is None);
                return None;
            },
            Some(x) => {
                r.push(x);
                assert(!(rest.len() == 1 && is_v4(rest[0])));
                proof {
                    if let Some(t) = group_values(q.skip(i + 1)) {
                        assert(r@.map_values(num) + t == before + (seq![x as int] + t));
                    }
                }
                i += 1;
            },
        }
    }
    assert(q.skip(i as int) == Seq::<Seq<char>>::empty());
    assert(r@.map_values(num) + Seq::<int>::empty() == r@.map_values(num));
    Some(r)
}

/// Whether the first `n` numbers are all 0.
fn zeros(v: &Vec<u32>, n: usize) -> (r: bool)
    requires
        n <= v@.len(),
    ensures
        r == all_zero(v@.map_values(|x: u32| x as int).take(n as int)),
{
    let ghost w = v@.map_values(|x: u32| x as int);
    let mut i: usize = 0;
    while i < n
        invariant
            i <= n <= v@.len(),
            w == v@.map_values(|x: u32| x as int),
            forall|j: int| 0 <= j < i ==> v@[j] == 0,
        decreases n - i,
    {
        if v[i] != 0 {
            assert(w.take(n as int)[i as int] != 0);
            return false;
        }
        i += 1;
    }
    true
}

/// Whether the numbers are zeros and a final one.
fn zeros_and_one(v: &Vec<u32>) -> (r: bool)
    ensures
        r == ends_in_one(v@.map_values(|x: u32| x as int)),
{
    let ghost w = v@.map_values(|x: u32| x as int);
    let n: usize = v.len();
    if n == 0 {
        return false;
    }
    assert(w.take(n - 1) == w.drop_last());
    assert(w.last() == v@[n - 1]);
    v[n - 1] == 1 && zeros(v, n - 1)
}

/// Position of the first `::`, or one with no room for it.
fn gap_at(v: &Vec<char>) -> (g: usize)
    ensures
        g <= v@.len(),
        g + 1 < v@.len() ==> gap(v@) == g,
        g + 1 >= v@.len() ==> gap(v@) + 1 >= v@.len(),
{
    let n: usize = v.len();
    let mut g: usize = 0;
    while n >= 2 && g < n - 1 && !(v[g] == ':' && v[g + 1] == ':')
        invariant
            n == v@.len(),
            g <= n,
            forall|j: int|
                0 <= j < g && j + 1 < v@.len() ==> !(#[trigger] v@[j] == ':' && v@[j + 1] == ':'),
        decreases n - g,
    {
        g += 1;
    }
    proof {
        crate::expand::lemma_pair_at_is(v@, ':', ':', g as int);
    }
    g
}

/// The groups of an IPv6 address before and behind its `::`; all of them, and nothing, where
/// it has none.
fn v6_sides(s: &str) -> (r: Option<(Vec<u32>, Option<Vec<u32>>)>)
    ensures
        ({
            let g = gap(s@);
            let num = |x: u32| x as int;
            match r {
                None => !is_v6(s@),
                Some((h, None)) => is_v6(s@) && g + 1 >= s@.len() && side_values(s@) == Some(
                    h@.map_values(num),
                ),
                Some((h, Some(t))) => is_v6(s@) && g + 1 < s@.len() && side_values(s@.take(g))
                    == Some(h@.map_values(num)) && side_values(s@.skip(g + 2)) == Some(
                    t@.map_values(num),
                ),
            }
        }),
{
    let v = text::chars_of(s);
    let n: usize = v.len();
    let g: usize = gap_at(&v);
    if n < 2 || g >= n - 1 {
        match side(s) {
            Some(w) => if w.len() == 8 {
                Some((w, None))
            } else {
                None
            },
            None => None,
        }
    } else {
        let head = s.substring_char(0, g);
        let tail = s.substring_char(g + 2, n);
        assert(head@ == s@.take(g as int));
        assert(tail@ == s@.skip(g + 2));
        if text::contains_char(head, '.') {
            return None;
        }
        match (side(head), side(tail)) {
            (Some(h), Some(t)) => {
                let hn: usize = h.len();
                if hn <= 7 && t.len() <= 7 - hn {
                    Some((h, Some(t)))
                } else {
                    None
                }
            },
            _ => None,
        }
    }
}

/// Whether `s` writes the IPv6 address ::1.
fn v6_loopback(s: &str) -> (r: bool)
    ensures
        r == is_v6_loopback(s@),
{
    match v6_sides(s) {
        None => false,
        Some((w, None)) => zeros_and_one(&w),
        Some((h, Some(t))) => {
            let hn: usize = h.len();
            assert(h@.map_values(|x: u32| x as int).take(hn as int) == h@.map_values(
                |x: u32| x as int,
            ));
            zeros(&h, hn) && zeros_and_one(&t)
        },
    }
}

/// Whether `s` is an IPv4 or an IPv6 address.
pub fn address(s: &str) -> (r: bool)
    ensures
        r == is_address(s@),
{
    v4_parts(s).is_some() || v6_sides(s).is_some()
}

/// Whether `s` writes an address of 127.0.0.0/8, or ::1.
pub fn loopback(s: &str) -> (r: bool)
    ensures
        r == is_loopback(s@),
{
    match v4_parts(s) {
        Some((a, _, _, _)) => a == 127,
        None => v6_loopback(s),
    }
}

/// The octets are the numbers from 0 to 255, written without leading zeros.
pub proof fn law_octets_are_small_numbers(n: int, t: Seq<char>)
    ensures
        0 <= n <= 255 ==> is_octet(number::decimal(n)) && number::digits_value(number::decimal(n))
            == n,
        n > 255 ==> !is_octet(number::decimal(n)),
        is_octet(t) ==> 0 <= number::digits_value(t) <= 255 && t == number::decimal(
            number::digits_value(t),
        ),
{
    if n >= 0 {
        number::lemma_numeral_reads_back(n as nat);
        if n <= 255 {
            lemma_short_numeral(n as nat);
        }
    }
    if is_octet(t) {
        number::lemma_digits_value_nonneg(t);
        let v = number::digits_value(t);
        lemma_short_numeral(v as nat);
        assert(number::is_digit(t[0]));
        reveal_with_fuel(number::digits_value, 4);
        if t.len() == 1 {
            assert(t =~= number::numeral(v as nat));
        } else if t.len() == 2 {
            assert(number::is_digit(t[1]));
            assert(t.drop_last().last() == t[0]);
            assert(t =~= number::numeral(v as nat));
        } else {
            assert(number::is_digit(t[1]));
            assert(number::is_digit(t[2]));
            assert(t.drop_last().last() == t[1]);
            assert(t.drop_last().drop_last().last() == t[0]);
            assert(t =~= number::numeral(v as nat));
        }
    }
}

proof fn lemma_short_numeral(n: nat)
    requires
        n <= 255,
    ensures
        ({
            let s = number::numeral(n);
            &&& n < 10 ==> s == seq![number::digit(n as int)]
            &&& 10 <= n < 100 ==> s == seq![
                number::digit((n / 10) as int),
                number::digit((n % 10) as int),
            ]
            &&& 100 <= n ==> s == seq![
                number::digit((n / 100) as int),
                number::digit((n / 10 % 10) as int),
                number::digit((n % 10) as int),
            ]
            &&& n >= 10 ==> s[0] != '0'
        }),
{
    reveal_with_fuel(number::numeral, 4);
    let s = number::numeral(n);
    if 10 <= n < 100 {
        assert(s =~= seq![number::digit((n / 10) as int), number::digit((n % 10) as int)]);
    } else if n >= 100 {
        assert(n / 10 / 10 == n / 100);
        assert(s =~= seq![
            number::digit((n / 100) as int),
            number::digit((n / 10 % 10) as int),
            number::digit((n % 10) as int),
        ]);
    }
}

/// Four numbers from 0 to 255 with dots between them are an address, and a loopback one
/// exactly where the first is 127; with a larger number among them they are none.
pub proof fn law_four_numbers_are_an_address(a: int, b: int, c: int, d: int)
    requires
        a >= 0,
        b >= 0,
        c >= 0,
        d >= 0,
    ensures
        ({
            let s = text::joined_by(
                seq![number::decimal(a), number::decimal(b), number::decimal(c), number::decimal(d)],
                '.',
            );
            &&& is_v4(s) == (a <= 255 && b <= 255 && c <= 255 && d <= 255)
            &&& is_v4(s) ==> is_address(s) && is_loopback(s) == (a == 127)
        }),
{
    let parts = seq![
        number::decimal(a),
        number::decimal(b),
        number::decimal(c),
        number::decimal(d),
    ];
    number::lemma_numeral_reads_back(a as nat);
    number::lemma_numeral_reads_back(b as nat);
    number::lemma_numeral_reads_back(c as nat);
    number::lemma_numeral_reads_back(d as nat);
    assert forall|i: int| 0 <= i < parts.len() implies !(#[trigger] parts[i]).contains('.') by {
        assert(number::all_digits(parts[i]));
    }
    text::law_joined_pieces_are_found_again(parts, '.');
    law_octets_are_small_numbers(a, parts[0]);
    law_octets_are_small_numbers(b, parts[1]);
    law_octets_are_small_numbers(c, parts[2]);
    law_octets_are_small_numbers(d, parts[3]);
}

/// The text is made of one to four hexadecimal digits.
pub open spec fn has_hex_digits(s: Seq<char>) -> bool {
    1 <= s.len() <= 4 && forall|i: int|
        0 <= i < s.len() ==> ('0' <= #[trigger] s[i] <= '9' || 'a' <= s[i] <= 'f' || 'A' <= s[i]
            <= 'F')
}

/// The texts are made of one to four hexadecimal digits each.
pub open spec fn have_hex_digits(parts: Seq<Seq<char>>) -> bool {
    forall|i: int| 0 <= i < parts.len() ==> has_hex_digits(#[trigger] parts[i])
}

/// The numbers that the texts write.
pub open spec fn hex_values(parts: Seq<Seq<char>>) -> Seq<int> {
    parts.map_values(|p: Seq<char>| hex_value(p))
}

proof fn lemma_joined_groups(parts: Seq<Seq<char>>)
    requires
        have_hex_digits(parts),
        parts.len() > 0,
    ensures
        ({
            let s = text::joined_by(parts, ':');
            &&& s.len() > 0
            &&& s[0] != ':'
            &&& s.last() != ':'
            &&& !s.contains('.')
            &&& forall|j: int| 0 <= j && j + 1 < s.len() ==> !(#[trigger] s[j] == ':' && s[j + 1] == ':')
        }),
    decreases parts.len(),
{
    let s = text::joined_by(parts, ':');
    let a = parts[0];
    assert(has_hex_digits(a));
    assert(a[0] == a[0]);
    assert(a[a.len() - 1] == a.last());
    if parts.len() > 1 {
        let t = parts.drop_first();
        assert forall|i: int| 0 <= i < t.len() implies has_hex_digits(#[trigger] t[i]) by {
            assert(t[i] == parts[i + 1]);
        }
        lemma_joined_groups(t);
        let rest = text::joined_by(t, ':');
        assert(s =~= a + seq![':'] + rest);
        assert(s.last() == rest.last());
        assert(s[0] == a[0]);
        assert forall|j: int| 0 <= j && j + 1 < s.len() implies !(#[trigger] s[j] == ':' && s[j + 1]
            == ':') by {
            if j < a.len() {
                assert(s[j] == a[j]);
            } else if j == a.len() {
                assert(s[j + 1] == rest[0]);
            } else {
                let k = j - a.len() - 1;
                assert(s[j] == rest[k]);
                assert(s[j + 1] == rest[k + 1]);
            }
        }
        assert(!s.contains('.')) by {
            if s.contains('.') {
                let j = choose|j: int| 0 <= j < s.len() && s[j] == '.';
                if j < a.len() {
                    assert(a[j] == '.');
                } else if j > a.len() {
                    assert(rest[j - a.len() - 1] == '.');
                    assert(rest.contains('.'));
                }
            }
        }
    } else {
        assert(s =~= a);
        assert forall|j: int| 0 <= j && j + 1 < s.len() implies !(#[trigger] s[j] == ':' && s[j + 1]
            == ':') by {
            assert(s[j] == a[j]);
        }
        assert(!s.contains('.')) by {
            if s.contains('.') {
                let j = choose|j: int| 0 <= j < s.len() && s[j] == '.';
                assert(a[j] == '.');
            }
        }
    }
}

proof fn lemma_group_values(parts: Seq<Seq<char>>)
    requires
        have_hex_digits(parts),
    ensures
        group_values(parts) == Some(hex_values(parts)),
    decreases parts.len(),
{
    if parts.len() > 0 {
        let a = parts[0];
        assert(has_hex_digits(a));
        assert(!a.contains('.')) by {
            if a.contains('.') {
                let j = choose|j: int| 0 <= j < a.len() && a[j] == '.';
                assert(a[j] == '.');
            }
        }
        text::law_joined_pieces_are_found_again(seq![a], '.');
        assert(text::joined_by(seq![a], '.') == a);
        assert(!is_v4(a));
        assert(is_group(a)) by {
            assert forall|i: int| 0 <= i < a.len() implies is_hex(#[trigger] a[i]) by {}
        }
        let t = parts.drop_first();
        assert forall|i: int| 0 <= i < t.len() implies has_hex_digits(#[trigger] t[i]) by {
            assert(t[i] == parts[i + 1]);
        }
        lemma_group_values(t);
        assert(seq![hex_value(a)] + hex_values(t) =~= hex_values(parts));
    } else {
        assert(hex_values(parts) =~= Seq::<int>::empty());
    }
}

proof fn lemma_side(parts: Seq<Seq<char>>)
    requires
        have_hex_digits(parts),
    ensures
        side_values(text::joined_by(parts, ':')) == Some(hex_values(parts)),
{
    if parts.len() > 0 {
        lemma_joined_groups(parts);
        assert forall|i: int| 0 <= i < parts.len() implies !(#[trigger] parts[i]).contains(':') by {
            assert(has_hex_digits(parts[i]));
            if parts[i].contains(':') {
                let j = choose|j: int| 0 <= j < parts[i].len() && parts[i][j] == ':';
                assert(parts[i][j] == ':');
            }
        }
        text::law_joined_pieces_are_found_again(parts, ':');
        lemma_group_values(parts);
    } else {
        assert(hex_values(parts) =~= Seq::<int>::empty());
    }
}

proof fn lemma_no_dots(s: Seq<char>)
    requires
        !s.contains('.'),
    ensures
        !is_v4(s),
{
    text::law_joined_pieces_are_found_again(seq![s], '.');
    assert(text::joined_by(seq![s], '.') == s);
}

/// Eight groups of hexadecimal digits with colons between them are an address, and so are up
/// to seven with a pair of colons before, behind or between them, which stands for zeros. It
/// is the loopback address exactly where all groups are zero but the last, which is one.
pub proof fn law_groups_are_an_address(head: Seq<Seq<char>>, tail: Seq<Seq<char>>)
    requires
        have_hex_digits(head),
        have_hex_digits(tail),
    ensures
        head.len() == 8 ==> is_address(text::joined_by(head, ':')) && is_loopback(
            text::joined_by(head, ':'),
        ) == (hex_values(head) == seq![0int, 0, 0, 0, 0, 0, 0, 1]),
        head.len() + tail.len() <= 7 ==> is_address(
            text::joined_by(head, ':') + seq![':', ':'] + text::joined_by(tail, ':'),
        ),
        head.len() + tail.len() <= 7 ==> is_loopback(
            text::joined_by(head, ':') + seq![':', ':'] + text::joined_by(tail, ':'),
        ) == (tail.len() > 0 && hex_values(tail).last() == 1 && (forall|i: int|
            0 <= i < head.len() ==> hex_value(#[trigger] head[i]) == 0) && (forall|i: int|
            0 <= i < tail.len() - 1 ==> hex_value(#[trigger] tail[i]) == 0)),
{
    lemma_side(head);
    lemma_side(tail);
    if head.len() == 8 {
        let s = text::joined_by(head, ':');
        lemma_joined_groups(head);
        crate::expand::lemma_pair_at_bounds(s, ':', ':');
        let g = gap(s);
        assert(g + 1 >= s.len());
        lemma_no_dots(s);
        let v = hex_values(head);
        if ends_in_one(v) {
            assert forall|i: int| 0 <= i < 7 implies #[trigger] v[i] == 0 by {
                assert(v.drop_last()[i] == v[i]);
            }
            assert(v =~= seq![0int, 0, 0, 0, 0, 0, 0, 1]);
        }
        if v == seq![0int, 0, 0, 0, 0, 0, 0, 1] {
            assert forall|i: int| 0 <= i < v.drop_last().len() implies #[trigger] v.drop_last()[i]
                == 0 by {
                assert(v.drop_last()[i] == v[i]);
            }
        }
    }
    if head.len() + tail.len() <= 7 {
        let h = text::joined_by(head, ':');
        let t = text::joined_by(tail, ':');
        let s = h + seq![':', ':'] + t;
        if head.len() > 0 {
            lemma_joined_groups(head);
        }
        if tail.len() > 0 {
            lemma_joined_groups(tail);
        }
        assert(!s.contains('.')) by {
            if s.contains('.') {
                let j = choose|j: int| 0 <= j < s.len() && s[j] == '.';
                if j < h.len() {
                    assert(h[j] == '.');
                    assert(h.contains('.'));
                } else if j >= h.len() + 2 {
                    assert(t[j - h.len() - 2] == '.');
                    assert(t.contains('.'));
                }
            }
        }
        lemma_no_dots(s);
        let g = h.len() as int;
        assert forall|j: int| 0 <= j < g && j + 1 < s.len() implies !(#[trigger] s[j] == ':' && s[j
            + 1] == ':') by {
            assert(s[j] == h[j]);
            if j + 1 < g {
                assert(s[j + 1] == h[j + 1]);
            } else {
                assert(h[j] == h.last());
            }
        }
        assert(s[g] == ':' && s[g + 1] == ':');
        crate::expand::lemma_pair_at_is(s, ':', ':', g);
        assert(s.take(g) =~= h);
        assert(s.skip(g + 2) =~= t);
        let hv = hex_values(head);
        let tv = hex_values(tail);
        assert(all_zero(hv) == forall|i: int|
            0 <= i < head.len() ==> hex_value(#[trigger] head[i]) == 0) by {
            assert forall|i: int| 0 <= i < head.len() implies hv[i] == hex_value(#[trigger] head[i]) by {}
            if all_zero(hv) {
                assert forall|i: int| 0 <= i < head.len() implies hex_value(#[trigger] head[i]) == 0 by {
                    assert(hv[i] == 0);
                }
            }
        }
        if tail.len() > 0 {
            assert(all_zero(tv.drop_last()) == forall|i: int|
                0 <= i < tail.len() - 1 ==> hex_value(#[trigger] tail[i]) == 0) by {
                if all_zero(tv.drop_last()) {
                    assert forall|i: int| 0 <= i < tail.len() - 1 implies hex_value(
                        #[trigger] tail[i],
                    ) == 0 by {
                        assert(tv.drop_last()[i] == 0);
                    }
                } else {
                    let i = choose|i: int|
                        0 <= i < tv.drop_last().len() && #[trigger] tv.drop_last()[i] != 0;
                    assert(hex_value(tail[i]) != 0);
                }
            }
        }
    }
}

/// Hexadecimal digits write what they stand for, in either case.
pub proof fn law_hexadecimal_digits_have_their_values(s: Seq<char>, c: char)
    requires
        is_hex(c),
    ensures
        hex_value(s.push(c)) == 16 * hex_value(s) + hex_value(seq![c]),
        c == '0' ==> hex_value(seq![c]) == 0,
        c == '9' ==> hex_value(seq![c]) == 9,
        c == 'a' || c == 'A' ==> hex_value(seq![c]) == 10,
        c == 'f' || c == 'F' ==> hex_value(seq![c]) == 15,
        0 <= hex_value(seq![c]) <= 15,
{
    assert(s.push(c).drop_last() =~= s);
    assert(seq![c].drop_last() =~= Seq::<char>::empty());
    assert(hex_value(seq![c].drop_last()) == 0);
}

} // verus!
