//! Decimal numerals: writing integers and reading them back.

use crate::text;
use vstd::prelude::*;
use vstd::string::*;

verus! {

/// The digit `d`, from 0 to 9.
pub open spec fn digit(d: int) -> char {
    ('0' as int + d) as char
}

/// `c` is one of the ten digits.
pub open spec fn is_digit(c: char) -> bool {
    '0' <= c <= '9'
}

/// The value of the digit `c`.
pub open spec fn digit_value(c: char) -> int {
    c as int - '0' as int
}

/// The decimal numeral of `n`, without leading zeros.
pub open spec fn numeral(n: nat) -> Seq<char>
    decreases n,
{
    if n < 10 {
        seq![digit(n as int)]
    } else {
        numeral(n / 10).push(digit((n % 10) as int))
    }
}

/// The decimal numeral of `n`, with a minus sign before a negative one.
pub open spec fn decimal(n: int) -> Seq<char> {
    if n < 0 {
        seq!['-'] + numeral((-n) as nat)
    } else {
        numeral(n as nat)
    }
}

/// `s` is made of one digit or more.
pub open spec fn all_digits(s: Seq<char>) -> bool {
    s.len() > 0 && forall|i: int| 0 <= i < s.len() ==> is_digit(#[trigger] s[i])
}

/// The number that the digits `s` write.
pub open spec fn digits_value(s: Seq<char>) -> int
    decreases s.len(),
{
    if s.len() == 0 {
        0
    } else {
        10 * digits_value(s.drop_last()) + digit_value(s.last())
    }
}

/// The integer that `s` writes: digits behind at most one sign.
pub open spec fn integer(s: Seq<char>) -> Option<int> {
    if s.len() > 0 && s[0] == '-' && all_digits(s.drop_first()) {
        Some(-digits_value(s.drop_first()))
    } else if s.len() > 0 && s[0] == '+' && all_digits(s.drop_first()) {
        Some(digits_value(s.drop_first()))
    } else if all_digits(s) {
        Some(digits_value(s))
    } else {
        None
    }
}

/// The integer that `s` writes, where it lies between `lo` and `hi`.
pub open spec fn integer_between(s: Seq<char>, lo: int, hi: int) -> Option<int> {
    match integer(s) {
        Some(n) => if lo <= n <= hi {
            Some(n)
        } else {
            None
        },
        None => None,
    }
}

pub proof fn lemma_digits_value_nonneg(s: Seq<char>)
    requires
        forall|i: int| 0 <= i < s.len() ==> is_digit(#[trigger] s[i]),
    ensures
        digits_value(s) >= 0,
    decreases s.len(),
{
    if s.len() > 0 {
        assert(is_digit(s.last()));
        assert forall|i: int| 0 <= i < s.drop_last().len() implies is_digit(
            #[trigger] s.drop_last()[i],
        ) by {
            assert(s.drop_last()[i] == s[i]);
        }
        lemma_digits_value_nonneg(s.drop_last());
    }
}

/// A prefix of a numeral writes no larger a number than the whole.
pub proof fn lemma_digits_value_prefix(s: Seq<char>, k: int)
    requires
        0 <= k <= s.len(),
        forall|i: int| 0 <= i < s.len() ==> is_digit(#[trigger] s[i]),
    ensures
        digits_value(s.take(k)) <= digits_value(s),
    decreases s.len(),
{
    if k == s.len() {
        assert(s.take(k) == s);
    } else {
        let t = s.drop_last();
        assert forall|i: int| 0 <= i < t.len() implies is_digit(#[trigger] t[i]) by {
            assert(t[i] == s[i]);
        }
        assert(is_digit(s.last()));
        lemma_digits_value_prefix(t, k);
        lemma_digits_value_nonneg(t);
        assert(t.take(k) == s.take(k));
    }
}

/// Reading a numeral gives back the number it was written from.
pub proof fn lemma_numeral_reads_back(n: nat)
    ensures
        all_digits(numeral(n)),
        digits_value(numeral(n)) == n,
    decreases n,
{
    if n < 10 {
        let s = seq![digit(n as int)];
        assert(s.drop_last() == Seq::<char>::empty());
        assert(digits_value(s.drop_last()) == 0);
        assert(s.last() == digit(n as int));
    } else {
        lemma_numeral_reads_back(n / 10);
        let s = numeral(n);
        let p = numeral(n / 10);
        assert(s.drop_last() == p);
        assert(s.last() == digit((n % 10) as int));
        assert forall|i: int| 0 <= i < s.len() implies is_digit(#[trigger] s[i]) by {
            if i < p.len() {
                assert(s[i] == p[i]);
            }
        }
    }
}

/// Writing an integer and reading the text back gives the integer again.
pub proof fn law_written_numbers_read_back(n: int)
    ensures
        integer(decimal(n)) == Some(n),
{
    if n < 0 {
        lemma_numeral_reads_back((-n) as nat);
        assert(decimal(n).drop_first() == numeral((-n) as nat));
    } else {
        lemma_numeral_reads_back(n as nat);
        let s = numeral(n as nat);
        assert(is_digit(s[0]));
    }
}

/// The last character of an integer's text is a digit.
pub proof fn lemma_decimal_ends_in_a_digit(n: int)
    ensures
        decimal(n).len() > 0,
        is_digit(decimal(n).last()),
{
    let m: nat = if n < 0 {
        (-n) as nat
    } else {
        n as nat
    };
    lemma_numeral_reads_back(m);
    assert(is_digit(numeral(m)[numeral(m).len() - 1]));
}

/// The digit `d` as a character.
fn digit_char(d: u64) -> (c: char)
    requires
        d < 10,
    ensures
        c == digit(d as int),
{
    (48u8 + d as u8) as char
}

/// The decimal numeral of `n`.
pub fn show_u64(n: u64) -> (r: String)
    ensures
        r@ == numeral(n as nat),
    decreases n,
{
    if n < 10 {
        let mut r = String::new();
        r.push(digit_char(n));
        assert(r@ == seq![digit(n as int)]);
        r
    } else {
        let mut r = show_u64(n / 10);
        r.push(digit_char(n % 10));
        r
    }
}

/// The decimal numeral of `n`, with its sign where it is negative.
pub fn show_i64(n: i64) -> (r: String)
    ensures
        r@ == decimal(n as int),
{
    if n < 0 {
        let m: u64 = (-(n as i128)) as u64;
        let t = show_u64(m);
        let r = text::cat2("-", t.as_str());
        proof {
            reveal_strlit("-");
            assert("-"@ == seq!['-']);
        }
        r
    } else {
        show_u64(n as u64)
    }
}

/// The value of the digits `v`, where it is at most `max`.
pub(crate) fn read_digits(v: &[char], max: u128) -> (r: Option<u128>)
    requires
        max <= 0x1_0000_0000_0000_0000,
    ensures
        r == (if all_digits(v@) && digits_value(v@) <= max {
            Some(digits_value(v@) as u128)
        } else {
            None::<u128>
        }),
{
    let n: usize = v.len();
    if n == 0 {
        return None;
    }
    let mut acc: u128 = 0;
    let mut over: bool = false;
    let mut i: usize = 0;
    assert(v@.take(0) == Seq::<char>::empty());
    while i < n
        invariant
            i <= n,
            n == v@.len(),
            max <= 0x1_0000_0000_0000_0000,
            forall|j: int| 0 <= j < i ==> is_digit(#[trigger] v@[j]),
            over ==> digits_value(v@.take(i as int)) > max,
            !over ==> digits_value(v@.take(i as int)) == acc && acc <= max,
        decreases n - i,
    {
        let c = v[i];
        if !('0' <= c && c <= '9') {
            assert(!is_digit(v@[i as int]));
            return None;
        }
        let ghost p = v@.take(i as int);
        assert(v@.take(i as int + 1).drop_last() == p);
        assert(v@.take(i as int + 1).last() == c);
        proof {
            assert forall|j: int| 0 <= j < p.len() implies is_digit(#[trigger] p[j]) by {
                assert(p[j] == v@[j]);
            }
            lemma_digits_value_nonneg(p);
        }
        if !over {
            let d: u128 = c as u128 - '0' as u128;
            acc = acc * 10 + d;
            if acc > max {
                over = true;
            }
        }
        i += 1;
    }
    assert(v@.take(n as int) == v@);
    if over {
        None
    } else {
        Some(acc)
    }
}

/// Reads an `i64`: digits behind at most one sign, in the type's range.
pub fn parse_i64(s: &str) -> (r: Option<i64>)
    ensures
        (match r {
            Some(n) => Some(n as int),
            None => None::<int>,
        }) == integer_between(s@, i64::MIN as int, i64::MAX as int),
{
    let v = text::chars_of(s);
    let n: usize = v.len();
    if n == 0 {
        return None;
    }
    if v[0] == '-' {
        assert(v@.subrange(1, n as int) == s@.drop_first());
        proof {
            assert(!is_digit(s@[0]));
            if all_digits(s@.drop_first()) {
                lemma_digits_value_nonneg(s@.drop_first());
            }
        }
        match read_digits(&v[1..n], 0x8000_0000_0000_0000) {
            Some(m) => Some((-(m as i128)) as i64),
            None => None,
        }
    } else if v[0] == '+' {
        assert(v@.subrange(1, n as int) == s@.drop_first());
        proof {
            assert(!is_digit(s@[0]));
            if all_digits(s@.drop_first()) {
                lemma_digits_value_nonneg(s@.drop_first());
            }
        }
        match read_digits(&v[1..n], 0x7fff_ffff_ffff_ffff) {
            Some(m) => Some(m as i64),
            None => None,
        }
    } else {
        proof {
            if all_digits(s@) {
                lemma_digits_value_nonneg(s@);
            }
        }
        match read_digits(&v, 0x7fff_ffff_ffff_ffff) {
            Some(m) => Some(m as i64),
            None => None,
        }
    }
}

/// Digits write their number, whatever zeros stand before them; a sign before them is its
/// sign, and a text that is neither is no number.
pub proof fn law_numbers_are_read_as_written(s: Seq<char>, c: char)
    requires
        all_digits(s),
    ensures
        integer(s) == Some(digits_value(s)),
        integer(seq!['+'] + s) == Some(digits_value(s)),
        integer(seq!['-'] + s) == Some(-digits_value(s)),
        integer(seq!['0'] + s) == integer(s),
        is_digit(c) ==> integer(s.push(c)) == Some(10 * integer(s)->0 + (c as int - '0' as int)),
        !is_digit(c) ==> integer(s.push(c)) is None,
        !is_digit(c) && c != '+' && c != '-' ==> integer(seq![c] + s) is None,
        integer(Seq::empty()) is None,
{
    assert(is_digit(s[0]));
    assert((seq!['+'] + s).drop_first() =~= s);
    assert((seq!['-'] + s).drop_first() =~= s);
    assert((seq!['+'] + s)[0] == '+');
    assert((seq!['-'] + s)[0] == '-');
    let z = seq!['0'] + s;
    assert(z[0] == '0');
    assert(all_digits(z)) by {
        assert forall|i: int| 0 <= i < z.len() implies is_digit(#[trigger] z[i]) by {
            if i > 0 {
                assert(z[i] == s[i - 1]);
            }
        }
    }
    lemma_zero_before(s);
    let p = s.push(c);
    assert(p.drop_last() =~= s);
    assert(p[0] == s[0]);
    assert(p[s.len() as int] == c);
    if is_digit(c) {
        assert(all_digits(p)) by {
            assert forall|i: int| 0 <= i < p.len() implies is_digit(#[trigger] p[i]) by {
                if i < s.len() {
                    assert(p[i] == s[i]);
                }
            }
        }
    } else {
        assert(!all_digits(p));
        let q = seq![c] + s;
        assert(q[0] == c);
        assert(!all_digits(q));
    }
}

proof fn lemma_zero_before(s: Seq<char>)
    ensures
        digits_value(seq!['0'] + s) == digits_value(s),
    decreases s.len(),
{
    let z = seq!['0'] + s;
    if s.len() == 0 {
        assert(z.drop_last() =~= Seq::<char>::empty());
        assert(digits_value(z.drop_last()) == 0);
    } else {
        assert(z.drop_last() =~= seq!['0'] + s.drop_last());
        lemma_zero_before(s.drop_last());
    }
}

/// A number out of the bounds is refused, and one within them is what it is.
pub proof fn law_bounds_are_kept(s: Seq<char>, lo: int, hi: int)
    ensures
        integer_between(s, lo, hi) is Some <==> integer(s) is Some && lo <= integer(s)->0 <= hi,
        integer_between(s, lo, hi) is Some ==> integer_between(s, lo, hi) == integer(s),
{
}

} // verus!
