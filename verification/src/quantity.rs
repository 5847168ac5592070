//! Resource quantities: memory in bytes, processor time in thousandths of a core.

use crate::number;
use crate::text;
use vstd::prelude::*;
use vstd::string::*;

verus! {

/// What floating-point arithmetic makes of decimal numbers of cores that are not whole,
/// such as `0.5`, or that are beyond `MOST_CORES`, in thousandths of a core: the numerals
/// that the caller has read, each with its value. A numeral that is not here counts as 0.
pub type DecimalCores = Vec<(String, i64)>;

/// The most cores, and the least below zero, that are read as a whole number.
pub const MOST_CORES: i64 = 9_007_199_254_740;

/// The value that `readings` gives the numeral `s`.
pub open spec fn reading(readings: Seq<(String, i64)>, s: Seq<char>) -> int
    decreases readings.len(),
{
    if readings.len() == 0 {
        0
    } else if readings[0].0@ == s {
        readings[0].1 as int
    } else {
        reading(readings.drop_first(), s)
    }
}

/// The `i64` that `s` writes, or 0.
pub open spec fn whole(s: Seq<char>) -> int {
    match number::integer_between(s, i64::MIN as int, i64::MAX as int) {
        Some(n) => n,
        None => 0,
    }
}

/// `s` without the run of `a` and `b` at its end.
pub open spec fn trimmed_either(s: Seq<char>, a: char, b: char) -> Seq<char>
    decreases s.len(),
{
    if s.len() > 0 && (s.last() == a || s.last() == b) {
        trimmed_either(s.drop_last(), a, b)
    } else {
        s
    }
}

/// The number of bytes that a memory quantity stands for.
pub open spec fn memory_bytes(s: Seq<char>) -> int {
    if text::ends(s, "Ei"@) {
        whole(text::trimmed_end_all(s, "Ei"@)) * 0x1000_0000_0000_0000
    } else if text::ends(s, "Pi"@) {
        whole(text::trimmed_end_all(s, "Pi"@)) * 0x4_0000_0000_0000
    } else if text::ends(s, "Ti"@) {
        whole(text::trimmed_end_all(s, "Ti"@)) * 0x100_0000_0000
    } else if text::ends(s, "Gi"@) {
        whole(text::trimmed_end_all(s, "Gi"@)) * 0x4000_0000
    } else if text::ends(s, "Mi"@) {
        whole(text::trimmed_end_all(s, "Mi"@)) * 0x10_0000
    } else if text::ends(s, "Ki"@) {
        whole(text::trimmed_end_all(s, "Ki"@)) * 0x400
    } else if s.len() > 0 && s.last() == 'E' {
        whole(text::trimmed_end(s, 'E')) * 1_000_000_000_000_000_000
    } else if s.len() > 0 && s.last() == 'P' {
        whole(text::trimmed_end(s, 'P')) * 1_000_000_000_000_000
    } else if s.len() > 0 && s.last() == 'T' {
        whole(text::trimmed_end(s, 'T')) * 1_000_000_000_000
    } else if s.len() > 0 && s.last() == 'G' {
        whole(text::trimmed_end(s, 'G')) * 1_000_000_000
    } else if s.len() > 0 && s.last() == 'M' {
        whole(text::trimmed_end(s, 'M')) * 1_000_000
    } else if s.len() > 0 && (s.last() == 'K' || s.last() == 'k') {
        whole(trimmed_either(s, 'K', 'k')) * 1000
    } else {
        whole(s)
    }
}

/// The bytes of a memory quantity fit in an `i64`.
pub open spec fn memory_fits(s: Seq<char>) -> bool {
    i64::MIN <= memory_bytes(s) <= i64::MAX
}

/// The thousandths of a core that a processor quantity stands for.
pub open spec fn millicores(s: Seq<char>, readings: Seq<(String, i64)>) -> int {
    if s.len() > 0 && s.last() == 'm' {
        whole(text::trimmed_end(s, 'm'))
    } else {
        match number::integer_between(s, -MOST_CORES as int, MOST_CORES as int) {
            Some(n) => n * 1000,
            None => reading(readings, s),
        }
    }
}

/// The `i64` that `s` writes, or 0.
fn whole_number(s: &str) -> (r: i64)
    ensures
        r == whole(s@),
{
    match number::parse_i64(s) {
        Some(n) => n,
        None => 0,
    }
}

/// `s` without the run of `a` and `b` at its end.
fn trim_either<'a>(s: &'a str, a: char, b: char) -> (r: &'a str)
    ensures
        r@ == trimmed_either(s@, a, b),
{
    let v = text::chars_of(s);
    let mut n: usize = v.len();
    assert(v@.take(n as int) == v@);
    while n > 0 && (v[n - 1] == a || v[n - 1] == b)
        invariant
            n <= v@.len(),
            v@ == s@,
            trimmed_either(s@, a, b) == trimmed_either(v@.take(n as int), a, b),
        decreases n,
    {
        assert(v@.take(n as int).drop_last() == v@.take(n - 1));
        assert(v@.take(n as int).last() == v@[n - 1]);
        n -= 1;
    }
    let r = s.substring_char(0, n);
    assert(r@ == v@.take(n as int));
    assert(n > 0 ==> v@.take(n as int).last() == v@[n - 1]);
    r
}

/// Whether `s` ends with the character `c`.
fn ends_in(s: &str, c: char) -> (r: bool)
    ensures
        r == (s@.len() > 0 && s@.last() == c),
{
    let n: usize = s.unicode_len();
    n > 0 && s.get_char(n - 1) == c
}

/// The number in front of a memory quantity's unit, and the unit in bytes.
fn memory_parts(s: &str) -> (r: (i64, i64))
    ensures
        r.0 * r.1 == memory_bytes(s@),
        1 <= r.1 <= 0x1000_0000_0000_0000,
{
    proof {
        reveal_strlit("Ei");
        reveal_strlit("Pi");
        reveal_strlit("Ti");
        reveal_strlit("Gi");
        reveal_strlit("Mi");
        reveal_strlit("Ki");
    }
    if text::ends_with(s, "Ei") {
        (whole_number(text::trim_end_str(s, "Ei")), 0x1000_0000_0000_0000)
    } else if text::ends_with(s, "Pi") {
        (whole_number(text::trim_end_str(s, "Pi")), 0x4_0000_0000_0000)
    } else if text::ends_with(s, "Ti") {
        (whole_number(text::trim_end_str(s, "Ti")), 0x100_0000_0000)
    } else if text::ends_with(s, "Gi") {
        (whole_number(text::trim_end_str(s, "Gi")), 0x4000_0000)
    } else if text::ends_with(s, "Mi") {
        (whole_number(text::trim_end_str(s, "Mi")), 0x10_0000)
    } else if text::ends_with(s, "Ki") {
        (whole_number(text::trim_end_str(s, "Ki")), 0x400)
    } else if ends_in(s, 'E') {
        (whole_number(text::trim_end_char(s, 'E')), 1_000_000_000_000_000_000)
    } else if ends_in(s, 'P') {
        (whole_number(text::trim_end_char(s, 'P')), 1_000_000_000_000_000)
    } else if ends_in(s, 'T') {
        (whole_number(text::trim_end_char(s, 'T')), 1_000_000_000_000)
    } else if ends_in(s, 'G') {
        (whole_number(text::trim_end_char(s, 'G')), 1_000_000_000)
    } else if ends_in(s, 'M') {
        (whole_number(text::trim_end_char(s, 'M')), 1_000_000)
    } else if ends_in(s, 'K') || ends_in(s, 'k') {
        (whole_number(trim_either(s, 'K', 'k')), 1000)
    } else {
        (whole_number(s), 1)
    }
}

/// Whether the bytes of a memory quantity fit in an `i64`.
pub fn memory_quantity_fits(s: &str) -> (r: bool)
    ensures
        r == memory_fits(s@),
{
    let (n, unit): (i64, i64) = memory_parts(s);
    let p: i128 = wide_product(n, unit);
    -0x8000_0000_0000_0000 <= p && p <= 0x7fff_ffff_ffff_ffff
}

/// The product of two numbers, in a type that always holds it.
fn wide_product(a: i64, b: i64) -> (r: i128)
    requires
        1 <= b <= 0x1000_0000_0000_0000,
    ensures
        r == a * b,
{
    assert(-0x8000_0000_0000_0000 * 0x1000_0000_0000_0000 <= a * b <= 0x8000_0000_0000_0000
        * 0x1000_0000_0000_0000) by (nonlinear_arith)
        requires
            -0x8000_0000_0000_0000 <= a <= 0x7fff_ffff_ffff_ffff,
            1 <= b <= 0x1000_0000_0000_0000,
    ;
    a as i128 * b as i128
}

/// Reads a memory quantity such as `128Mi`, `1Gi`, `2T` or `1000000` as a number of bytes.
/// What is not a number counts as 0.
pub fn parse_memory_quantity(s: &str) -> (r: i64)
    requires
        memory_fits(s@),
    ensures
        r == memory_bytes(s@),
{
    let (n, unit): (i64, i64) = memory_parts(s);
    wide_product(n, unit) as i64
}

/// Reads a processor quantity such as `500m`, `1` or `0.5` as thousandths of a core.
/// The value of a decimal number that is not whole is the one that `readings` holds for it.
pub fn parse_cpu_quantity(s: &str, readings: &DecimalCores) -> (r: i64)
    ensures
        r == millicores(s@, readings@),
{
    if ends_in(s, 'm') {
        return whole_number(text::trim_end_char(s, 'm'));
    }
    if let Some(n) = number::parse_i64(s) {
        if -MOST_CORES <= n && n <= MOST_CORES {
            return n * 1000;
        }
    }
    let mut i: usize = 0;
    assert(readings@.skip(0) == readings@);
    while i < readings.len()
        invariant
            i <= readings@.len(),
            reading(readings@, s@) == reading(readings@.skip(i as int), s@),
            millicores(s@, readings@) == reading(readings@, s@),
        decreases readings@.len() - i,
    {
        assert(readings@.skip(i as int)[0] == readings@[i as int]);
        assert(readings@.skip(i as int).drop_first() == readings@.skip(i + 1));
        if text::same(readings[i].0.as_str(), s) {
            return readings[i].1;
        }
        i += 1;
    }
    0
}

/// A whole number of cores is a thousand times as many thousandths of a core, and
/// thousandths are what they say.
pub proof fn law_cores_and_thousandths_agree(n: int, k: int, readings: Seq<(String, i64)>)
    requires
        -MOST_CORES <= n <= MOST_CORES,
        i64::MIN <= k <= i64::MAX,
    ensures
        millicores(number::decimal(n), readings) == 1000 * n,
        millicores(number::decimal(1000 * n) + "m"@, readings) == 1000 * n,
        millicores(number::decimal(k) + "m"@, readings) == k,
{
    number::law_written_numbers_read_back(n);
    number::lemma_decimal_ends_in_a_digit(n);
    lemma_thousandths(1000 * n, readings);
    lemma_thousandths(k, readings);
}

proof fn lemma_thousandths(k: int, readings: Seq<(String, i64)>)
    requires
        i64::MIN <= k <= i64::MAX,
    ensures
        millicores(number::decimal(k) + "m"@, readings) == k,
{
    reveal_strlit("m");
    let d = number::decimal(k);
    let s = d + "m"@;
    number::law_written_numbers_read_back(k);
    number::lemma_decimal_ends_in_a_digit(k);
    assert(s.last() == 'm');
    assert(s.drop_last() == d);
    assert(text::trimmed_end(d, 'm') == d);
    assert(text::trimmed_end(s, 'm') == d);
}

/// The whole quotient of `n` by `d`, rounded towards zero.
pub open spec fn quotient(n: int, d: int) -> int {
    if n >= 0 {
        n / d
    } else {
        -((-n) / d)
    }
}

/// How many units of `d` it takes to hold `n`: the quotient rounded up, for `n` from 0 on.
pub open spec fn units(n: int, d: int) -> int {
    quotient(n + d - 1, d)
}

/// How many units of `d` it takes to hold `n`.
pub fn units_of(n: i64, d: i64) -> (r: i64)
    requires
        d >= 1,
        n + d - 1 <= i64::MAX,
    ensures
        r == units(n as int, d as int),
{
    let sum: i64 = n + (d - 1);
    if sum >= 0 {
        sum / d
    } else {
        let m: i128 = -(sum as i128);
        let q: i128 = m / d as i128;
        assert(0 <= q <= m) by (nonlinear_arith)
            requires
                q == m as int / d as int,
                m >= 0,
                d >= 1,
        ;
        (-q) as i64
    }
}

/// The units cover the amount, and one unit fewer does not.
pub proof fn law_units_round_up(n: int, d: int)
    requires
        n >= 0,
        d >= 1,
    ensures
        units(n, d) * d >= n,
        (units(n, d) - 1) * d < n,
{
    let q = units(n, d);
    assert(q * d >= n && (q - 1) * d < n) by (nonlinear_arith)
        requires
            q == (n + d - 1) / d,
            d >= 1,
            n >= 0,
    ;
}

proof fn lemma_two_letter_unit(d: Seq<char>, u: Seq<char>)
    requires
        d.len() > 0,
        '0' <= d.last() <= '9',
        u.len() == 2,
        !('0' <= u[1] <= '9'),
    ensures
        text::ends(d + u, u),
        text::trimmed_end_all(d + u, u) == d,
        forall|v: Seq<char>|
            #![trigger text::ends(d + u, v)]
            v.len() == 2 && v != u ==> !text::ends(d + u, v),
        (d + u).last() == u[1],
{
    let s = d + u;
    assert(s.skip(s.len() - 2) =~= u);
    assert(s.take(s.len() - 2) =~= d);
    if text::ends(d, u) {
        assert(d.skip(d.len() - 2)[1] == d.last());
    }
    assert(text::trimmed_end_all(d, u) == d);
    assert forall|v: Seq<char>|
        #![trigger text::ends(d + u, v)]
        v.len() == 2 && v != u implies !text::ends(d + u, v) by {
        if text::ends(s, v) {
            assert(s.skip(s.len() - 2) == v);
        }
    }
}

proof fn lemma_one_letter_unit(d: Seq<char>, c: char)
    requires
        d.len() > 0,
        '0' <= d.last() <= '9',
        !('0' <= c <= '9'),
        c != 'i',
    ensures
        (d + seq![c]).last() == c,
        text::trimmed_end(d + seq![c], c) == d,
        c == 'K' || c == 'k' ==> trimmed_either(d + seq![c], 'K', 'k') == d,
        forall|v: Seq<char>|
            #![trigger text::ends(d + seq![c], v)]
            v.len() == 2 && v[1] == 'i' ==> !text::ends(d + seq![c], v),
{
    let s = d + seq![c];
    assert(s.drop_last() =~= d);
    assert(text::trimmed_end(d, c) == d);
    assert(trimmed_either(d, 'K', 'k') == d);
    assert forall|v: Seq<char>|
        #![trigger text::ends(d + seq![c], v)]
        v.len() == 2 && v[1] == 'i' implies !text::ends(d + seq![c], v) by {
        if text::ends(s, v) {
            assert(s.skip(s.len() - 2)[1] == s.last());
        }
    }
}

/// A memory quantity with a unit is as many times the unit as its number says: the units are
/// the powers of 1024 that end in `i`, and the powers of 1000. A bare number is of bytes.
pub proof fn law_memory_units_multiply(n: int)
    requires
        i64::MIN <= n <= i64::MAX,
    ensures
        memory_bytes(number::decimal(n) + "Ki"@) == n * 1024,
        memory_bytes(number::decimal(n) + "Mi"@) == n * 1024 * 1024,
        memory_bytes(number::decimal(n) + "Gi"@) == n * 1024 * 1024 * 1024,
        memory_bytes(number::decimal(n) + "Ti"@) == n * 1024 * 1024 * 1024 * 1024,
        memory_bytes(number::decimal(n) + "Pi"@) == n * 1024 * 1024 * 1024 * 1024 * 1024,
        memory_bytes(number::decimal(n) + "Ei"@) == n * 1024 * 1024 * 1024 * 1024 * 1024 * 1024,
        memory_bytes(number::decimal(n) + seq!['k']) == n * 1000,
        memory_bytes(number::decimal(n) + seq!['K']) == n * 1000,
        memory_bytes(number::decimal(n) + seq!['M']) == n * 1000_000,
        memory_bytes(number::decimal(n) + seq!['G']) == n * 1000_000_000,
        memory_bytes(number::decimal(n) + seq!['T']) == n * 1000_000_000_000,
        memory_bytes(number::decimal(n) + seq!['P']) == n * 1000_000_000_000_000,
        memory_bytes(number::decimal(n) + seq!['E']) == n * 1000_000_000_000_000_000,
        memory_bytes(number::decimal(n)) == n,
{
    let d = number::decimal(n);
    number::lemma_decimal_ends_in_a_digit(n);
    number::law_written_numbers_read_back(n);
    assert(whole(d) == n);
    reveal_strlit("Ki");
    reveal_strlit("Mi");
    reveal_strlit("Gi");
    reveal_strlit("Ti");
    reveal_strlit("Pi");
    reveal_strlit("Ei");
    assert("Ki"@[0] == 'K' && "Mi"@[0] == 'M' && "Gi"@[0] == 'G' && "Ti"@[0] == 'T' && "Pi"@[0] == 'P'
        && "Ei"@[0] == 'E');
    assert("Ki"@[1] == 'i' && "Mi"@[1] == 'i' && "Gi"@[1] == 'i' && "Ti"@[1] == 'i' && "Pi"@[1] == 'i'
        && "Ei"@[1] == 'i');
    lemma_two_letter_unit(d, "Ki"@);
    lemma_two_letter_unit(d, "Mi"@);
    lemma_two_letter_unit(d, "Gi"@);
    lemma_two_letter_unit(d, "Ti"@);
    lemma_two_letter_unit(d, "Pi"@);
    lemma_two_letter_unit(d, "Ei"@);
    lemma_one_letter_unit(d, 'k');
    lemma_one_letter_unit(d, 'K');
    lemma_one_letter_unit(d, 'M');
    lemma_one_letter_unit(d, 'G');
    lemma_one_letter_unit(d, 'T');
    lemma_one_letter_unit(d, 'P');
    lemma_one_letter_unit(d, 'E');
    assert forall|v: Seq<char>| v.len() == 2 && v[1] == 'i' implies !#[trigger] text::ends(d, v) by {
        if text::ends(d, v) {
            assert(d.skip(d.len() - 2)[1] == d.last());
        }
    }
}

/// A processor quantity that floating point has to read is what it was read as; the first
/// reading of it counts, and one that was not read is nothing.
pub proof fn law_readings_are_taken(readings: Seq<(String, i64)>, s: Seq<char>, k: int)
    requires
        0 <= k <= readings.len(),
        forall|j: int| 0 <= j < k ==> (#[trigger] readings[j]).0@ != s,
        k < readings.len() ==> readings[k].0@ == s,
        s.len() == 0 || s.last() != 'm',
        number::integer_between(s, -MOST_CORES as int, MOST_CORES as int) is None,
    ensures
        k < readings.len() ==> millicores(s, readings) == readings[k].1,
        k == readings.len() ==> millicores(s, readings) == 0,
{
    lemma_reading(readings, s, k);
}

proof fn lemma_reading(readings: Seq<(String, i64)>, s: Seq<char>, k: int)
    requires
        0 <= k <= readings.len(),
        forall|j: int| 0 <= j < k ==> (#[trigger] readings[j]).0@ != s,
        k < readings.len() ==> readings[k].0@ == s,
    ensures
        k < readings.len() ==> reading(readings, s) == readings[k].1,
        k == readings.len() ==> reading(readings, s) == 0,
    decreases readings.len(),
{
    if readings.len() > 0 && k > 0 {
        let rest = readings.drop_first();
        assert(readings[0].0@ != s);
        assert forall|j: int| 0 <= j < k - 1 implies (#[trigger] rest[j]).0@ != s by {
            assert(rest[j] == readings[j + 1]);
        }
        if k < readings.len() {
            assert(rest[k - 1] == readings[k]);
        }
        lemma_reading(rest, s, k - 1);
    }
}

} // verus!
