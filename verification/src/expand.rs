//! Variable references in text: `$(NAME)` in environment values, sub-paths,
//! commands and arguments, `${NAME}` and `$NAME` in host paths.

use crate::api;
use crate::runtime::ContainerRuntime;
use crate::text;
use vstd::prelude::*;
use vstd::string::*;

verus! {

/// Position of the first `a` that a `b` follows at once, or a position with no
/// room for a pair where there is none.
pub open spec fn pair_at(s: Seq<char>, a: char, b: char) -> int
    decreases s.len(),
{
    if s.len() < 2 {
        s.len() as int
    } else if s[0] == a && s[1] == b {
        0
    } else {
        1 + pair_at(s.drop_first(), a, b)
    }
}

/// Where the first reference in `s` opens and closes: the positions of its `$` and
/// of the first `close` behind it.
pub open spec fn reference(s: Seq<char>, open: char, close: char) -> Option<(int, int)> {
    let i = pair_at(s, '$', open);
    if i + 1 >= s.len() {
        None
    } else {
        let k = text::cut(s.skip(i + 2), close);
        if i + 2 + k >= s.len() {
            None
        } else {
            Some((i, i + 2 + k))
        }
    }
}

/// The name that the reference from `i` to `j` holds.
pub open spec fn name_in(s: Seq<char>, i: int, j: int) -> Seq<char> {
    s.subrange(i + 2, j)
}

/// `s` with the reference from `i` to `j` replaced by `value`.
pub open spec fn substituted(s: Seq<char>, i: int, j: int, value: Seq<char>) -> Seq<char> {
    s.take(i) + value + s.skip(j + 1)
}

/// The part of an environment entry before its first `=`, and the part behind it.
pub open spec fn entry_parts(e: Seq<char>) -> (Seq<char>, Seq<char>) {
    let k = text::cut(e, '=');
    if k >= e.len() {
        (e, Seq::empty())
    } else {
        (e.take(k), e.skip(k + 1))
    }
}

/// The value of the first entry `name=value` of an environment.
pub open spec fn entry_lookup(entries: Seq<Seq<char>>, name: Seq<char>) -> Option<Seq<char>>
    decreases entries.len(),
{
    if entries.len() == 0 {
        None
    } else {
        let e = entries[0];
        let k = text::cut(e, '=');
        if k < e.len() && e.take(k) == name {
            Some(e.skip(k + 1))
        } else {
            entry_lookup(entries.drop_first(), name)
        }
    }
}

/// `o`, or the empty text.
pub open spec fn or_empty(o: Option<Seq<char>>) -> Seq<char> {
    match o {
        Some(v) => v,
        None => Seq::empty(),
    }
}

/// `s` after up to `n` replacements, from left to right, of `$(NAME)` by the value
/// of the environment entry, or by nothing where there is none.
pub open spec fn value_steps(s: Seq<char>, entries: Seq<Seq<char>>, n: nat) -> Seq<char>
    decreases n,
{
    match reference(s, '(', ')') {
        None => s,
        Some((i, j)) => if n == 0 {
            s
        } else {
            value_steps(
                substituted(s, i, j, or_empty(entry_lookup(entries, name_in(s, i, j)))),
                entries,
                (n - 1) as nat,
            )
        },
    }
}

/// What an environment value expands to: the text in which no reference is left,
/// where `n` replacements lead to one.
pub open spec fn value_expansion(s: Seq<char>, entries: Seq<Seq<char>>, n: nat) -> Option<
    Seq<char>,
> {
    let t = value_steps(s, entries, n);
    if reference(t, '(', ')') is None {
        Some(t)
    } else {
        None
    }
}

/// `expr` after up to `n` replacements of `$(NAME)`, or the name of the first
/// variable that is not defined.
pub open spec fn path_steps(s: Seq<char>, env: Seq<(Seq<char>, Seq<char>)>, n: nat) -> Result<
    Seq<char>,
    Seq<char>,
>
    decreases n,
{
    match reference(s, '(', ')') {
        None => Ok(s),
        Some((i, j)) => match api::find(env, name_in(s, i, j)) {
            None => Err(name_in(s, i, j)),
            Some(v) => if n == 0 {
                Ok(s)
            } else {
                path_steps(substituted(s, i, j, v), env, (n - 1) as nat)
            },
        },
    }
}

/// The replacements in `s` come to an end within `n` of them: no value brings new
/// references in without end.
pub open spec fn path_settles(s: Seq<char>, env: Seq<(Seq<char>, Seq<char>)>, n: nat) -> bool
    decreases n,
{
    match reference(s, '(', ')') {
        None => true,
        Some((i, j)) => match api::find(env, name_in(s, i, j)) {
            None => true,
            Some(v) => n > 0 && path_settles(substituted(s, i, j, v), env, (n - 1) as nat),
        },
    }
}

/// `s` holds the component `..` between its slashes.
pub open spec fn climbs(s: Seq<char>) -> bool {
    text::split(s, '/').contains(".."@)
}

/// What a sub-path expression becomes, or why it is refused.
pub open spec fn subpath_result(expr: Seq<char>, env: Seq<(Seq<char>, Seq<char>)>) -> Result<
    Seq<char>,
    Seq<char>,
> {
    if expr.contains('`') {
        Err("subPath must not contain backticks"@)
    } else {
        match path_steps(expr, env, u64::MAX as nat) {
            Err(name) => Err("variable "@ + name + " not found"@),
            Ok(t) => if text::begins(t, "/"@) {
                Err(
                    "subPath must not be an absolute path (expr='"@ + expr + "' result='"@ + t
                        + "')"@,
                )
            } else if climbs(t) {
                Err("subPath must not contain '..'"@)
            } else {
                Ok(t)
            },
        }
    }
}

/// What a command or argument becomes: `$(NAME)` gives the variable's value and
/// stays where there is no such variable, `$$` gives `$`, and any other `$` stays.
pub open spec fn command_expansion(s: Seq<char>, env: Seq<(Seq<char>, Seq<char>)>) -> Seq<char>
    decreases s.len(),
    via command_expansion_decreases
{
    if s.len() == 0 {
        Seq::empty()
    } else if s[0] == '$' && s.len() > 1 && s[1] == '$' {
        seq!['$'] + command_expansion(s.skip(2), env)
    } else if s[0] == '$' && s.len() > 1 && s[1] == '(' {
        let k = text::cut(s.skip(2), ')');
        if k < s.len() - 2 {
            (match api::find(env, s.subrange(2, 2 + k)) {
                Some(v) => v,
                None => s.take(k + 3),
            }) + command_expansion(s.skip(k + 3), env)
        } else {
            s.take(2) + command_expansion(s.skip(2), env)
        }
    } else {
        seq![s[0]] + command_expansion(s.skip(1), env)
    }
}

#[via_fn]
proof fn command_expansion_decreases(s: Seq<char>, env: Seq<(Seq<char>, Seq<char>)>) {
    if s.len() >= 2 {
        text::lemma_cut_bounds(s.skip(2), ')');
    }
}

pub proof fn lemma_pair_at_bounds(s: Seq<char>, a: char, b: char)
    ensures
        0 <= pair_at(s, a, b) <= s.len(),
        pair_at(s, a, b) + 1 < s.len() ==> s[pair_at(s, a, b)] == a && s[pair_at(s, a, b) + 1]
            == b,
        forall|j: int|
            0 <= j < pair_at(s, a, b) && j + 1 < s.len() ==> !(#[trigger] s[j] == a && s[j + 1]
                == b),
    decreases s.len(),
{
    if s.len() < 2 || (s[0] == a && s[1] == b) {
    } else {
        let t = s.drop_first();
        lemma_pair_at_bounds(t, a, b);
        assert forall|j: int| 0 <= j < pair_at(s, a, b) && j + 1 < s.len() implies !(
        #[trigger] s[j] == a && s[j + 1] == b) by {
            if j > 0 {
                assert(t[j - 1] == s[j]);
                assert(t[j] == s[j + 1]);
            }
        }
    }
}

pub proof fn lemma_pair_at_is(s: Seq<char>, a: char, b: char, i: int)
    requires
        0 <= i,
        i + 1 < s.len() ==> s[i] == a && s[i + 1] == b,
        forall|j: int| 0 <= j < i && j + 1 < s.len() ==> !(#[trigger] s[j] == a && s[j + 1] == b),
    ensures
        i + 1 < s.len() ==> pair_at(s, a, b) == i,
        i + 1 >= s.len() ==> pair_at(s, a, b) + 1 >= s.len(),
{
    lemma_pair_at_bounds(s, a, b);
    let k = pair_at(s, a, b);
    if k + 1 < s.len() && k < i {
        assert(s[k] == a && s[k + 1] == b);
    }
    if i + 1 < s.len() && i < k {
        assert(s[i] == a && s[i + 1] == b);
    }
}

/// A reference lies within the text.
pub proof fn lemma_reference_bounds(s: Seq<char>, open: char, close: char)
    ensures
        reference(s, open, close) matches Some((i, j)) ==> 0 <= i && i + 2 <= j < s.len() && s[i]
            == '$' && s[i + 1] == open && s[j] == close,
{
    lemma_pair_at_bounds(s, '$', open);
    let i = pair_at(s, '$', open);
    if i + 1 < s.len() {
        text::lemma_cut_bounds(s.skip(i + 2), close);
    }
}

/// Where the first reference in `v` opens and closes.
fn find_reference(v: &[char], open: char, close: char) -> (r: Option<(usize, usize)>)
    ensures
        (match r {
            Some((i, j)) => Some((i as int, j as int)),
            None => None::<(int, int)>,
        }) == reference(v@, open, close),
        r matches Some((i, j)) ==> i + 2 <= j < v@.len(),
{
    let n: usize = v.len();
    let mut i: usize = 0;
    while n >= 2 && i < n - 1 && !(v[i] == '$' && v[i + 1] == open)
        invariant
            n == v@.len(),
            i <= n,
            forall|j: int|
                0 <= j < i && j + 1 < v@.len() ==> !(#[trigger] v@[j] == '$' && v@[j + 1] == open),
        decreases n - i,
    {
        i += 1;
    }
    proof {
        lemma_pair_at_is(v@, '$', open, i as int);
        lemma_reference_bounds(v@, open, close);
    }
    if n < 2 || i >= n - 1 {
        return None;
    }
    let tail: &[char] = &v[i + 2..n];
    assert(tail@ == v@.skip(i + 2));
    let k: usize = text::cut_at(tail, close);
    if k >= n - i - 2 {
        None
    } else {
        Some((i, i + 2 + k))
    }
}

/// The text `v` with the part from `i` to `j`, both ends within it, replaced.
fn substitute(v: &[char], i: usize, j: usize, value: &str) -> (r: String)
    requires
        i <= j < v@.len(),
    ensures
        r@ == substituted(v@, i as int, j as int, value@),
{
    let mut r = text::string_of(&v[0..i]);
    assert(v@.subrange(0, i as int) == v@.take(i as int));
    r.append(value);
    let n: usize = v.len();
    let rest = text::string_of(&v[j + 1..n]);
    assert(v@.subrange(j + 1, n as int) == v@.skip(j + 1));
    r.append(rest.as_str());
    r
}

/// The value of the first entry `name=value` of an environment.
pub fn entry_get(entries: &[String], name: &str) -> (r: Option<String>)
    ensures
        text::opt_text(r) == entry_lookup(text::texts(entries@), name@),
{
    let ghost all = text::texts(entries@);
    let mut p: usize = 0;
    assert(all.skip(0) == all);
    while p < entries.len()
        invariant
            p <= entries@.len(),
            all == text::texts(entries@),
            entry_lookup(all, name@) == entry_lookup(all.skip(p as int), name@),
        decreases entries@.len() - p,
    {
        assert(all.skip(p as int)[0] == entries@[p as int]@);
        assert(all.skip(p as int).drop_first() == all.skip(p + 1));
        let e = text::chars_of(entries[p].as_str());
        let k: usize = text::cut_at(&e, '=');
        if k < e.len() {
            let key = text::string_of(&e[0..k]);
            assert(e@.subrange(0, k as int) == e@.take(k as int));
            if text::same(key.as_str(), name) {
                let n: usize = e.len();
                let value = text::string_of(&e[k + 1..n]);
                assert(e@.subrange(k + 1, n as int) == e@.skip(k + 1));
                return Some(value);
            }
        }
        p += 1;
    }
    None
}

/// Expands the `$(NAME)` references of an environment value by the entries set before
/// it, with at most `max` replacements. `None` where more would be needed: a value
/// that refers to itself never comes to an end.
pub fn expand_value(value: &str, entries: &[String], max: u64) -> (r: Option<String>)
    ensures
        text::opt_text(r) == value_expansion(value@, text::texts(entries@), max as nat),
{
    let mut cur = String::from_str(value);
    let mut done: u64 = 0;
    loop
        invariant
            done <= max,
            value_steps(value@, text::texts(entries@), max as nat) == value_steps(
                cur@,
                text::texts(entries@),
                (max - done) as nat,
            ),
        decreases max - done,
    {
        let v = text::chars_of(cur.as_str());
        match find_reference(&v, '(', ')') {
            None => {
                return Some(cur);
            },
            Some((i, j)) => {
                if done == max {
                    return None;
                }
                let name = text::string_of(&v[i + 2..j]);
                let value = match entry_get(entries, name.as_str()) {
                    Some(x) => x,
                    None => String::new(),
                };
                cur = substitute(&v, i, j, value.as_str());
                done += 1;
            },
        }
    }
}

/// The names that the entries of an environment give, with their values.
pub open spec fn pairs_of(entries: Seq<Seq<char>>) -> Seq<(Seq<char>, Seq<char>)> {
    entries.map_values(|e: Seq<char>| entry_parts(e))
}

/// The entries of an environment as pairs of name and value.
pub fn entry_pairs(entries: &[String]) -> (r: Vec<(String, String)>)
    ensures
        api::pair_texts(r@) == pairs_of(text::texts(entries@)),
{
    let mut r: Vec<(String, String)> = Vec::new();
    let mut p: usize = 0;
    while p < entries.len()
        invariant
            p <= entries@.len(),
            r@.len() == p,
            forall|i: int|
                0 <= i < p ==> ((#[trigger] r@[i]).0@, r@[i].1@) == entry_parts(entries@[i]@),
        decreases entries@.len() - p,
    {
        let e = text::chars_of(entries[p].as_str());
        let n: usize = e.len();
        let k: usize = text::cut_at(&e, '=');
        let key = text::string_of(&e[0..k]);
        assert(e@.subrange(0, k as int) == e@.take(k as int));
        if k < n {
            let value = text::string_of(&e[k + 1..n]);
            assert(e@.subrange(k + 1, n as int) == e@.skip(k + 1));
            r.push((key, value));
        } else {
            assert(e@.take(k as int) == e@);
            r.push((key, String::new()));
        }
        p += 1;
    }
    assert(api::pair_texts(r@) =~= pairs_of(text::texts(entries@)));
    r
}

/// Whether one of the parts between the slashes is `..`.
pub fn path_climbs(s: &str) -> (r: bool)
    ensures
        r == climbs(s@),
{
    let parts = text::split_on(s, '/');
    let mut i: usize = 0;
    while i < parts.len()
        invariant
            i <= parts@.len(),
            text::texts(parts@) == text::split(s@, '/'),
            forall|j: int| 0 <= j < i ==> text::texts(parts@)[j] != ".."@,
        decreases parts@.len() - i,
    {
        if text::same(parts[i].as_str(), "..") {
            assert(text::texts(parts@)[i as int] == ".."@);
            return true;
        }
        i += 1;
    }
    false
}

/// Whether the replacements in a sub-path expression come to an end.
pub fn subpath_settles(expr: &str, env_vars: &[(String, String)]) -> (r: bool)
    ensures
        r == path_settles(expr@, api::pair_texts(env_vars@), u64::MAX as nat),
{
    let mut cur = String::from_str(expr);
    let mut left: u64 = u64::MAX;
    loop
        invariant
            path_settles(expr@, api::pair_texts(env_vars@), u64::MAX as nat) == path_settles(
                cur@,
                api::pair_texts(env_vars@),
                left as nat,
            ),
        decreases left,
    {
        let v = text::chars_of(cur.as_str());
        match find_reference(&v, '(', ')') {
            None => {
                return true;
            },
            Some((i, j)) => {
                let name = text::string_of(&v[i + 2..j]);
                match api::get(env_vars, name.as_str()) {
                    None => {
                        return true;
                    },
                    Some(value) => {
                        if left == 0 {
                            return false;
                        }
                        cur = substitute(&v, i, j, value);
                        left -= 1;
                    },
                }
            },
        }
    }
}

impl ContainerRuntime {
    /// Expands the `$(NAME)` references of a `subPathExpr` and refuses what must not be
    /// mounted: backticks in the expression, a variable that is not defined, and a result
    /// that is absolute or holds a `..` component.
    pub fn expand_subpath_expr(expr: &str, env_vars: &[(String, String)]) -> (r: Result<
        String,
        String,
    >)
        requires
            expr@.contains('`') || path_settles(expr@, api::pair_texts(env_vars@), u64::MAX as nat),
        ensures
            (match r {
                Ok(t) => Ok::<Seq<char>, Seq<char>>(t@),
                Err(e) => Err(e@),
            }) == subpath_result(expr@, api::pair_texts(env_vars@)),
    {
        if text::contains_char(expr, '`') {
            return Err(String::from_str("subPath must not contain backticks"));
        }
        let mut cur = String::from_str(expr);
        let mut left: u64 = u64::MAX;
        loop
            invariant_except_break
                path_settles(cur@, api::pair_texts(env_vars@), left as nat),
                path_steps(expr@, api::pair_texts(env_vars@), u64::MAX as nat) == path_steps(
                    cur@,
                    api::pair_texts(env_vars@),
                    left as nat,
                ),
                !expr@.contains('`'),
            ensures
                path_steps(expr@, api::pair_texts(env_vars@), u64::MAX as nat) == Ok::<Seq<char>, Seq<char>>(cur@),
            decreases left,
        {
            let v = text::chars_of(cur.as_str());
            match find_reference(&v, '(', ')') {
                None => {
                    break;
                },
                Some((i, j)) => {
                    let name = text::string_of(&v[i + 2..j]);
                    match api::get(env_vars, name.as_str()) {
                        None => {
                            return Err(text::cat3("variable ", name.as_str(), " not found"));
                        },
                        Some(value) => {
                            cur = substitute(&v, i, j, value);
                            left -= 1;
                        },
                    }
                },
            }
        }
        if text::starts_with(cur.as_str(), "/") {
            return Err(
                text::cat5(
                    "subPath must not be an absolute path (expr='",
                    expr,
                    "' result='",
                    cur.as_str(),
                    "')",
                ),
            );
        }
        if path_climbs(cur.as_str()) {
            return Err(String::from_str("subPath must not contain '..'"));
        }
        Ok(cur)
    }
}

/// Expands one command word or argument.
fn expand_command_word(item: &str, env: &[(String, String)]) -> (r: String)
    ensures
        r@ == command_expansion(item@, api::pair_texts(env@)),
{
    let v = text::chars_of(item);
    let n: usize = v.len();
    let mut r = String::new();
    let mut at: usize = 0;
    assert(v@.skip(0) == v@);
    assert(Seq::<char>::empty() + command_expansion(v@, api::pair_texts(env@)) == command_expansion(v@, api::pair_texts(env@)));
    while at < n
        invariant
            at <= n,
            n == v@.len(),
            command_expansion(item@, api::pair_texts(env@)) == r@ + command_expansion(v@.skip(at as int), api::pair_texts(env@)),
        decreases n - at,
    {
        let ghost rest = v@.skip(at as int);
        let ghost before = r@;
        if v[at] == '$' && at + 1 < n && v[at + 1] == '$' {
            r.push('$');
            assert(v@.skip(at + 2) == rest.skip(2));
            assert(rest[0] == '$' && rest[1] == '$');
            assert(r@ + command_expansion(rest.skip(2), api::pair_texts(env@)) == before + (seq!['$']
                + command_expansion(rest.skip(2), api::pair_texts(env@))));
            at += 2;
        } else if v[at] == '$' && at + 1 < n && v[at + 1] == '(' {
            assert(rest[0] == '$' && rest[1] == '(');
            let tail: &[char] = &v[at + 2..n];
            assert(tail@ == rest.skip(2));
            let k: usize = text::cut_at(tail, ')');
            if k < n - at - 2 {
                let name = text::string_of(&v[at + 2..at + 2 + k]);
                assert(name@ == rest.subrange(2, 2 + k));
                let ghost piece = match api::find(api::pair_texts(env@), name@) {
                    Some(x) => x,
                    None => rest.take(k + 3),
                };
                match api::get(env, name.as_str()) {
                    Some(value) => {
                        r.append(value);
                    },
                    None => {
                        let literal = text::string_of(&v[at..at + k + 3]);
                        assert(literal@ == rest.take(k + 3));
                        r.append(literal.as_str());
                    },
                }
                assert(r@ == before + piece);
                assert(v@.skip(at + k + 3) == rest.skip(k + 3));
                assert(r@ + command_expansion(rest.skip(k + 3), api::pair_texts(env@)) == before + (piece
                    + command_expansion(rest.skip(k + 3), api::pair_texts(env@))));
                at = at + k + 3;
            } else {
                r.append("$(");
                proof {
                    reveal_strlit("$(");
                    assert("$("@ == rest.take(2));
                }
                assert(v@.skip(at + 2) == rest.skip(2));
                assert(r@ + command_expansion(rest.skip(2), api::pair_texts(env@)) == before + (rest.take(2)
                    + command_expansion(rest.skip(2), api::pair_texts(env@))));
                at += 2;
            }
        } else {
            r.push(v[at]);
            assert(v@.skip(at + 1) == rest.skip(1));
            assert(rest[0] == v@[at as int]);
            assert(rest.len() > 1 ==> rest[1] == v@[at + 1]);
            assert(r@ + command_expansion(rest.skip(1), api::pair_texts(env@)) == before + (seq![rest[0]]
                + command_expansion(rest.skip(1), api::pair_texts(env@))));
            at += 1;
        }
    }
    assert(v@.skip(n as int) == Seq::<char>::empty());
    assert(r@ + Seq::<char>::empty() == r@);
    r
}

/// Expands each word of a command or argument list.
pub fn expand_k8s_vars(items: &[String], env: &[(String, String)]) -> (r: Vec<String>)
    ensures
        text::texts(r@) == text::texts(items@).map_values(
            |s: Seq<char>| command_expansion(s, api::pair_texts(env@)),
        ),
{
    let mut r: Vec<String> = Vec::new();
    let mut i: usize = 0;
    while i < items.len()
        invariant
            i <= items@.len(),
            r@.len() == i,
            forall|j: int| 0 <= j < i ==> (#[trigger] r@[j])@ == command_expansion(items@[j]@, api::pair_texts(env@)),
        decreases items@.len() - i,
    {
        r.push(expand_command_word(items[i].as_str(), env));
        i += 1;
    }
    assert(text::texts(r@) =~= text::texts(items@).map_values(
        |s: Seq<char>| command_expansion(s, api::pair_texts(env@)),
    ));
    r
}

/// How often `c` stands in `s`.
pub open spec fn count_of(s: Seq<char>, c: char) -> nat
    decreases s.len(),
{
    if s.len() == 0 {
        0
    } else {
        count_of(s.drop_last(), c) + (if s.last() == c {
            1nat
        } else {
            0nat
        })
    }
}

proof fn lemma_count_concat(a: Seq<char>, b: Seq<char>, c: char)
    ensures
        count_of(a + b, c) == count_of(a, c) + count_of(b, c),
    decreases b.len(),
{
    if b.len() == 0 {
        assert(a + b == a);
    } else {
        lemma_count_concat(a, b.drop_last(), c);
        assert((a + b).drop_last() == a + b.drop_last());
        assert((a + b).last() == b.last());
    }
}

proof fn lemma_count_absent(s: Seq<char>, c: char)
    requires
        !s.contains(c),
    ensures
        count_of(s, c) == 0,
    decreases s.len(),
{
    if s.len() > 0 {
        assert(s.contains(s.last()));
        assert forall|i: int| 0 <= i < s.drop_last().len() implies s.drop_last()[i] != c by {
            assert(s.contains(s[i]));
        }
        lemma_count_absent(s.drop_last(), c);
    }
}

proof fn lemma_lookup_in(env: Seq<(Seq<char>, Seq<char>)>, key: Seq<char>)
    ensures
        api::find(env, key) matches Some(v) ==> exists|i: int|
            0 <= i < env.len() && (#[trigger] env[i]).1 == v,
    decreases env.len(),
{
    if env.len() > 0 && env[0].0 != key {
        lemma_lookup_in(env.drop_first(), key);
        if let Some(v) = api::find(env, key) {
            let j = choose|j: int|
                0 <= j < env.drop_first().len() && (#[trigger] env.drop_first()[j]).1 == v;
            assert(env[j + 1].1 == v);
        }
    }
}

/// One replacement by a value without the character `c`, with which references open, takes
/// one out of the text.
proof fn lemma_substitution_shrinks(s: Seq<char>, i: int, j: int, v: Seq<char>, c: char)
    requires
        0 <= i,
        i + 2 <= j < s.len(),
        s[i] == c || s[i + 1] == c,
        !v.contains(c),
    ensures
        count_of(substituted(s, i, j, v), c) < count_of(s, c),
{
    let a = s.take(i);
    let m = s.subrange(i, j + 1);
    let b = s.skip(j + 1);
    assert(s == a + m + b);
    lemma_count_concat(a + m, b, c);
    lemma_count_concat(a, m, c);
    lemma_count_concat(a + v, b, c);
    lemma_count_concat(a, v, c);
    lemma_count_absent(v, c);
    let m1 = m.take(2);
    let m2 = m.skip(2);
    assert(m == m1 + m2);
    lemma_count_concat(m1, m2, c);
    let first = m1.drop_last();
    assert(m1.last() == s[i + 1] && first.last() == s[i]);
    assert(count_of(first.drop_last(), c) >= 0);
    assert(count_of(first, c) >= (if s[i] == c {
        1int
    } else {
        0
    }));
    assert(count_of(m1, c) >= 1);
}

/// Where no variable's value holds a dollar sign, or none holds an opening bracket, the
/// replacements in a sub-path expression come to an end, after at most one for each of these
/// characters in it.
pub proof fn law_plain_values_settle(
    s: Seq<char>,
    env: Seq<(Seq<char>, Seq<char>)>,
    c: char,
    n: nat,
)
    requires
        c == '$' || c == '(',
        forall|i: int| 0 <= i < env.len() ==> !(#[trigger] env[i]).1.contains(c),
        count_of(s, c) <= n,
    ensures
        path_settles(s, env, n),
    decreases n,
{
    lemma_reference_bounds(s, '(', ')');
    if let Some((i, j)) = reference(s, '(', ')') {
        lemma_lookup_in(env, name_in(s, i, j));
        if let Some(v) = api::find(env, name_in(s, i, j)) {
            lemma_substitution_shrinks(s, i, j, v, c);
            law_plain_values_settle(substituted(s, i, j, v), env, c, (n - 1) as nat);
        }
    }
}

/// A text without any reference is its own sub-path, unless it is absolute, climbs or
/// holds a backtick; what is accepted is never absolute and never climbs.
pub proof fn law_accepted_subpath_stays_inside(expr: Seq<char>, env: Seq<(Seq<char>, Seq<char>)>)
    ensures
        subpath_result(expr, env) matches Ok(t) ==> !text::begins(t, "/"@) && !climbs(t),
        reference(expr, '(', ')') is None && !expr.contains('`') && !text::begins(expr, "/"@)
            && !climbs(expr) ==> subpath_result(expr, env) == Ok::<Seq<char>, Seq<char>>(expr),
{
}

/// `char::is_alphanumeric`: a letter or a numeric character of Unicode; among the
/// ASCII characters these are the letters and the digits.
pub assume_specification[ char::is_alphanumeric ](c: char) -> (r: bool)
    ensures
        r == alphanumeric(c),
        c <= '\u{7f}' ==> r == ('0' <= c <= '9' || 'a' <= c <= 'z' || 'A' <= c <= 'Z'),
;

/// What `char::is_alphanumeric` says of `c`.
pub uninterp spec fn alphanumeric(c: char) -> bool;

/// The number of word characters that `s` begins with.
pub open spec fn word_len(s: Seq<char>) -> int
    decreases s.len(),
{
    if s.len() > 0 && (alphanumeric(s[0]) || s[0] == '_') {
        1 + word_len(s.drop_first())
    } else {
        0
    }
}

/// `s` after up to `n` replacements of `${NAME}` by the variable's value, or by
/// nothing where it is not set.
pub open spec fn brace_steps(s: Seq<char>, env: Seq<(Seq<char>, Seq<char>)>, n: nat) -> Seq<char>
    decreases n,
{
    match reference(s, '{', '}') {
        None => s,
        Some((i, j)) => if n == 0 {
            s
        } else {
            brace_steps(
                substituted(s, i, j, or_empty(api::find(env, name_in(s, i, j)))),
                env,
                (n - 1) as nat,
            )
        },
    }
}

/// `s` with each `$NAME` replaced by the variable's value, or by nothing where it is not
/// set. The name is the run of word characters behind the `$`.
pub open spec fn word_expansion(s: Seq<char>, env: Seq<(Seq<char>, Seq<char>)>) -> Seq<char>
    decreases s.len(),
    via word_expansion_decreases
{
    if s.len() == 0 {
        Seq::empty()
    } else if s[0] == '$' && word_len(s.skip(1)) > 0 {
        let k = word_len(s.skip(1));
        or_empty(api::find(env, s.subrange(1, 1 + k))) + word_expansion(s.skip(1 + k), env)
    } else {
        seq![s[0]] + word_expansion(s.skip(1), env)
    }
}

#[via_fn]
proof fn word_expansion_decreases(s: Seq<char>, env: Seq<(Seq<char>, Seq<char>)>) {
    if s.len() > 0 {
        lemma_word_len_bounds(s.skip(1));
    }
}

proof fn lemma_word_len_bounds(s: Seq<char>)
    ensures
        0 <= word_len(s) <= s.len(),
    decreases s.len(),
{
    if s.len() > 0 {
        lemma_word_len_bounds(s.drop_first());
    }
}

/// What a host path expands to: first each `${NAME}`, then each `$NAME`. `None` where
/// the replacements of the former have no end.
pub open spec fn host_path_expansion(s: Seq<char>, env: Seq<(Seq<char>, Seq<char>)>) -> Option<
    Seq<char>,
> {
    let t = brace_steps(s, env, u64::MAX as nat);
    if reference(t, '{', '}') is None {
        Some(word_expansion(t, env))
    } else {
        None
    }
}

/// A host path without any `$` comes back unchanged.
pub proof fn law_paths_without_references_stay(s: Seq<char>, env: Seq<(Seq<char>, Seq<char>)>)
    requires
        !s.contains('$'),
    ensures
        host_path_expansion(s, env) == Some(s),
{
    lemma_no_reference(s);
    lemma_plain_words_stay(s, env);
}

proof fn lemma_no_reference(s: Seq<char>)
    requires
        !s.contains('$'),
    ensures
        reference(s, '{', '}') is None,
{
    lemma_pair_at_bounds(s, '$', '{');
    let i = pair_at(s, '$', '{');
    if i + 1 < s.len() {
        assert(s[i] == '$');
        assert(s.contains('$'));
    }
}

proof fn lemma_plain_words_stay(s: Seq<char>, env: Seq<(Seq<char>, Seq<char>)>)
    requires
        !s.contains('$'),
    ensures
        word_expansion(s, env) == s,
    decreases s.len(),
{
    if s.len() > 0 {
        assert(s[0] != '$') by {
            if s[0] == '$' {
                assert(s.contains('$'));
            }
        }
        assert(!s.skip(1).contains('$')) by {
            if s.skip(1).contains('$') {
                let k = choose|k: int| 0 <= k < s.skip(1).len() && s.skip(1)[k] == '$';
                assert(s[k + 1] == '$');
            }
        }
        lemma_plain_words_stay(s.skip(1), env);
        assert(seq![s[0]] + s.skip(1) == s);
    } else {
        assert(s == Seq::<char>::empty());
    }
}

/// The number of word characters from position `at` on.
fn word_len_at(v: &[char], at: usize) -> (r: usize)
    requires
        at <= v@.len(),
    ensures
        r == word_len(v@.skip(at as int)),
        r <= v@.len() - at,
{
    let n: usize = v.len();
    let mut k: usize = 0;
    while at + k < n && (v[at + k].is_alphanumeric() || v[at + k] == '_')
        invariant
            at + k <= n,
            n == v@.len(),
            word_len(v@.skip(at as int)) == k + word_len(v@.skip(at + k)),
        decreases n - at - k,
    {
        assert(v@.skip(at + k)[0] == v@[at + k]);
        assert(v@.skip(at + k).drop_first() == v@.skip(at + k + 1));
        k += 1;
    }
    assert(at + k < n ==> v@.skip(at + k)[0] == v@[at + k]);
    k
}

/// Replaces each `${NAME}`; the text where at most `max` replacements were needed.
fn expand_braces(input: &str, env: &[(String, String)], max: u64) -> (r: Option<String>)
    ensures
        text::opt_text(r) == ({
            let t = brace_steps(input@, api::pair_texts(env@), max as nat);
            if reference(t, '{', '}') is None {
                Some(t)
            } else {
                None
            }
        }),
{
    let mut cur = String::from_str(input);
    let mut done: u64 = 0;
    loop
        invariant
            done <= max,
            brace_steps(input@, api::pair_texts(env@), max as nat) == brace_steps(
                cur@,
                api::pair_texts(env@),
                (max - done) as nat,
            ),
        decreases max - done,
    {
        let v = text::chars_of(cur.as_str());
        match find_reference(&v, '{', '}') {
            None => {
                return Some(cur);
            },
            Some((i, j)) => {
                if done == max {
                    return None;
                }
                let name = text::string_of(&v[i + 2..j]);
                let value: &str = match api::get(env, name.as_str()) {
                    Some(x) => x,
                    None => "",
                };
                proof {
                    reveal_strlit("");
                    assert(""@ == Seq::<char>::empty());
                }
                cur = substitute(&v, i, j, value);
                done += 1;
            },
        }
    }
}

/// Replaces each `$NAME`.
fn expand_words(input: &str, env: &[(String, String)]) -> (r: String)
    ensures
        r@ == word_expansion(input@, api::pair_texts(env@)),
{
    let v = text::chars_of(input);
    let n: usize = v.len();
    let mut r = String::new();
    let mut at: usize = 0;
    assert(v@.skip(0) == v@);
    assert(r@ + word_expansion(v@, api::pair_texts(env@)) == word_expansion(
        v@,
        api::pair_texts(env@),
    ));
    while at < n
        invariant
            at <= n,
            n == v@.len(),
            word_expansion(input@, api::pair_texts(env@)) == r@ + word_expansion(
                v@.skip(at as int),
                api::pair_texts(env@),
            ),
        decreases n - at,
    {
        let ghost rest = v@.skip(at as int);
        let ghost before = r@;
        assert(rest[0] == v@[at as int]);
        assert(rest.skip(1) == v@.skip(at + 1));
        let k: usize = if v[at] == '$' {
            word_len_at(&v, at + 1)
        } else {
            0
        };
        if k > 0 {
            let name = text::string_of(&v[at + 1..at + 1 + k]);
            assert(name@ == rest.subrange(1, 1 + k));
            let value: &str = match api::get(env, name.as_str()) {
                Some(x) => x,
                None => "",
            };
            proof {
                reveal_strlit("");
                assert(""@ == Seq::<char>::empty());
            }
            r.append(value);
            assert(rest.skip(1 + k) == v@.skip(at + 1 + k));
            let ghost t = word_expansion(v@.skip(at + 1 + k), api::pair_texts(env@));
            assert(r@ + t == before + (value@ + t));
            at = at + 1 + k;
        } else {
            r.push(v[at]);
            let ghost t = word_expansion(v@.skip(at + 1), api::pair_texts(env@));
            assert(r@ + t == before + (seq![rest[0]] + t));
            at += 1;
        }
    }
    assert(v@.skip(n as int) == Seq::<char>::empty());
    assert(r@ + Seq::<char>::empty() == r@);
    r
}

/// Whether the variable references of a host path can be replaced.
pub fn env_vars_expand(input: &str, env: &[(String, String)]) -> (r: bool)
    ensures
        r == (host_path_expansion(input@, api::pair_texts(env@)) is Some),
{
    match expand_braces(input, env, u64::MAX) {
        None => false,
        Some(_) => true,
    }
}

impl ContainerRuntime {
    /// Expands the variable references of a host path: `${NAME}`, then `$NAME`. A variable
    /// that is not set gives nothing.
    pub fn expand_env_vars(input: &str, env: &[(String, String)]) -> (r: String)
        requires
            host_path_expansion(input@, api::pair_texts(env@)) is Some,
        ensures
            Some(r@) == host_path_expansion(input@, api::pair_texts(env@)),
    {
        match expand_braces(input, env, u64::MAX) {
            None => String::new(),
            Some(t) => expand_words(t.as_str(), env),
        }
    }
}

/// `a`, then a reference to `name`, then `rest`.
pub open spec fn with_reference(
    a: Seq<char>,
    open: char,
    name: Seq<char>,
    close: char,
    rest: Seq<char>,
) -> Seq<char> {
    a + seq!['$', open] + name + seq![close] + rest
}

proof fn lemma_without(s: Seq<char>, c: char)
    requires
        !s.contains(c),
    ensures
        forall|i: int| 0 <= i < s.len() ==> (#[trigger] s[i]) != c,
{
    assert forall|i: int| 0 <= i < s.len() implies (#[trigger] s[i]) != c by {
        if s[i] == c {
            assert(s.contains(c));
        }
    }
}

/// Where the first reference lies.
proof fn lemma_reference_found(
    a: Seq<char>,
    open: char,
    name: Seq<char>,
    close: char,
    rest: Seq<char>,
)
    requires
        !a.contains('$'),
        !name.contains(close),
        open != '$',
    ensures
        ({
            let s = with_reference(a, open, name, close, rest);
            let i = a.len() as int;
            let j = i + 2 + name.len();
            &&& reference(s, open, close) == Some((i, j))
            &&& name_in(s, i, j) == name
            &&& forall|v: Seq<char>| #[trigger] substituted(s, i, j, v) == a + v + rest
        }),
{
    let s = with_reference(a, open, name, close, rest);
    let i = a.len() as int;
    let j = i + 2 + name.len();
    lemma_without(a, '$');
    lemma_without(name, close);
    assert(s[i] == '$' && s[i + 1] == open && s[j] == close);
    assert forall|k: int| 0 <= k < i && k + 1 < s.len() implies !(#[trigger] s[k] == '$' && s[k + 1]
        == open) by {
        assert(s[k] == a[k]);
    }
    lemma_pair_at_is(s, '$', open, i);
    let t = s.skip(i + 2);
    assert forall|k: int| 0 <= k < name.len() implies (#[trigger] t[k]) != close by {
        assert(t[k] == name[k]);
    }
    assert(t[name.len() as int] == close);
    text::lemma_cut_is(t, close, name.len() as int);
    assert(name_in(s, i, j) =~= name);
    assert forall|v: Seq<char>| #[trigger] substituted(s, i, j, v) == a + v + rest by {
        assert(s.take(i) =~= a);
        assert(s.skip(j + 1) =~= rest);
    }
}

proof fn lemma_no_reference_in(s: Seq<char>, open: char, close: char)
    requires
        !s.contains('$'),
    ensures
        reference(s, open, close) is None,
{
    lemma_pair_at_bounds(s, '$', open);
    let i = pair_at(s, '$', open);
    if i + 1 < s.len() {
        assert(s[i] == '$');
        assert(s.contains('$'));
    }
}

/// The first reference in an environment value is replaced by what the entries before it give
/// its name, by nothing where they give it no value, and the rest likewise; what stands before
/// it stays. A value without a `$` stays as it is, and no reference is left in the end.
pub proof fn law_values_are_expanded_from_left_to_right(
    a: Seq<char>,
    name: Seq<char>,
    rest: Seq<char>,
    entries: Seq<Seq<char>>,
    n: nat,
)
    requires
        !a.contains('$'),
        !name.contains(')'),
    ensures
        value_expansion(a, entries, n) == Some(a),
        value_expansion(with_reference(a, '(', name, ')', rest), entries, n + 1) == value_expansion(
            a + (match entry_lookup(entries, name) {
                Some(v) => v,
                None => Seq::empty(),
            }) + rest,
            entries,
            n,
        ),
        value_expansion(a + rest, entries, n) matches Some(t) ==> reference(t, '(', ')') is None,
{
    lemma_no_reference_in(a, '(', ')');
    lemma_reference_found(a, '(', name, ')', rest);
    let s = with_reference(a, '(', name, ')', rest);
    let i = a.len() as int;
    let j = i + 2 + name.len();
    let v = or_empty(entry_lookup(entries, name));
    assert(substituted(s, i, j, v) == a + v + rest);
    assert(value_steps(s, entries, n + 1) == value_steps(a + v + rest, entries, n));
}

/// An entry `name=value` gives the name its value, whatever the value holds; the first entry of
/// a name decides.
pub proof fn law_entries_give_names_their_values(
    entries: Seq<Seq<char>>,
    name: Seq<char>,
    value: Seq<char>,
    other: Seq<char>,
)
    requires
        !name.contains('='),
    ensures
        entry_parts(name + seq!['='] + value) == (name, value),
        entry_lookup(seq![name + seq!['='] + value] + entries, name) == Some(value),
        other != name ==> entry_lookup(seq![name + seq!['='] + value] + entries, other)
            == entry_lookup(entries, other),
        entry_lookup(Seq::empty(), name) is None,
{
    let e = name + seq!['='] + value;
    let k = name.len() as int;
    lemma_without(name, '=');
    assert(e[k] == '=');
    assert forall|i: int| 0 <= i < k implies (#[trigger] e[i]) != '=' by {
        assert(e[i] == name[i]);
    }
    text::lemma_cut_is(e, '=', k);
    assert(e.take(k) =~= name);
    assert(e.skip(k + 1) =~= value);
    let all = seq![e] + entries;
    assert(all[0] == e);
    assert(all.drop_first() =~= entries);
}

/// The first reference in a sub-path expression is replaced by the variable's value, and the
/// expression is refused with the variable's name where there is no such variable.
pub proof fn law_sub_paths_take_the_variables_values(
    a: Seq<char>,
    name: Seq<char>,
    rest: Seq<char>,
    env: Seq<(Seq<char>, Seq<char>)>,
    n: nat,
)
    requires
        !a.contains('$'),
        !name.contains(')'),
    ensures
        path_steps(a, env, n) == Ok::<Seq<char>, Seq<char>>(a),
        api::find(env, name) is None ==> path_steps(
            with_reference(a, '(', name, ')', rest),
            env,
            n,
        ) == Err::<Seq<char>, Seq<char>>(name),
        api::find(env, name) matches Some(v) ==> path_steps(
            with_reference(a, '(', name, ')', rest),
            env,
            n + 1,
        ) == path_steps(a + v + rest, env, n),
{
    lemma_no_reference_in(a, '(', ')');
    lemma_reference_found(a, '(', name, ')', rest);
    let s = with_reference(a, '(', name, ')', rest);
    let i = a.len() as int;
    let j = i + 2 + name.len();
    if let Some(v) = api::find(env, name) {
        assert(substituted(s, i, j, v) == a + v + rest);
    }
}

/// A sub-path is refused where it holds a backtick, where it is absolute, where it climbs and
/// where one of its variables is not defined, and is accepted otherwise.
pub proof fn law_sub_paths_are_refused_for_a_reason(expr: Seq<char>, env: Seq<(Seq<char>, Seq<char>)>)
    ensures
        ({
            let steps = path_steps(expr, env, u64::MAX as nat);
            subpath_result(expr, env) is Err <==> {
                ||| expr.contains('`')
                ||| steps is Err
                ||| steps is Ok && (steps->Ok_0.len() > 0 && steps->Ok_0[0] == '/')
                ||| steps is Ok && text::split(steps->Ok_0, '/').contains(".."@)
            }
        }),
        subpath_result(expr, env) matches Ok(t) ==> path_steps(expr, env, u64::MAX as nat) == Ok::<
            Seq<char>,
            Seq<char>,
        >(t),
{
    reveal_strlit("/");
    if let Ok(t) = path_steps(expr, env, u64::MAX as nat) {
        if t.len() > 0 {
            assert(t.take(1)[0] == t[0]);
            if t[0] == '/' {
                assert(t.take(1) =~= "/"@);
            }
        }
    }
}

proof fn lemma_plain_front(a: Seq<char>, rest: Seq<char>, env: Seq<(Seq<char>, Seq<char>)>)
    requires
        !a.contains('$'),
    ensures
        command_expansion(a + rest, env) == a + command_expansion(rest, env),
        word_expansion(a + rest, env) == a + word_expansion(rest, env),
    decreases a.len(),
{
    lemma_without(a, '$');
    if a.len() == 0 {
        assert(a + rest =~= rest);
        assert(a + command_expansion(rest, env) =~= command_expansion(rest, env));
        assert(a + word_expansion(rest, env) =~= word_expansion(rest, env));
    } else {
        let b = a.skip(1);
        assert(!b.contains('$')) by {
            if b.contains('$') {
                let k = choose|k: int| 0 <= k < b.len() && b[k] == '$';
                assert(a[k + 1] == '$');
            }
        }
        lemma_plain_front(b, rest, env);
        assert((a + rest).skip(1) =~= b + rest);
        assert((a + rest)[0] == a[0]);
        assert(seq![a[0]] + (b + command_expansion(rest, env)) =~= a + command_expansion(
            rest,
            env,
        ));
        assert(seq![a[0]] + (b + word_expansion(rest, env)) =~= a + word_expansion(rest, env));
    }
}

/// A word of a command without any `$` stays as it is. In any other, what stands before the
/// first reference stays, `$(NAME)` gives the variable's value and stays itself where there is
/// no such variable, `$$` gives a `$`, and the rest is expanded likewise; a value is not
/// expanded again.
pub proof fn law_command_words_take_the_variables_values(
    a: Seq<char>,
    name: Seq<char>,
    rest: Seq<char>,
    env: Seq<(Seq<char>, Seq<char>)>,
)
    requires
        !a.contains('$'),
        !name.contains(')'),
    ensures
        command_expansion(a, env) == a,
        command_expansion(with_reference(a, '(', name, ')', rest), env) == a + (match api::find(
            env,
            name,
        ) {
            Some(v) => v,
            None => seq!['$', '('] + name + seq![')'],
        }) + command_expansion(rest, env),
        command_expansion(a + seq!['$', '$'] + rest, env) == a + seq!['$'] + command_expansion(
            rest,
            env,
        ),
{
    let none = Seq::<char>::empty();
    lemma_plain_front(a, none, env);
    assert(a + none =~= a);
    assert(command_expansion(none, env) =~= none);
    let s = seq!['$', '('] + name + seq![')'] + rest;
    assert(with_reference(a, '(', name, ')', rest) =~= a + s);
    lemma_plain_front(a, s, env);
    lemma_without(name, ')');
    let t = s.skip(2);
    let k = name.len() as int;
    assert(t[k] == ')');
    assert forall|i: int| 0 <= i < k implies (#[trigger] t[i]) != ')' by {
        assert(t[i] == name[i]);
    }
    text::lemma_cut_is(t, ')', k);
    assert(s.subrange(2, 2 + k) =~= name);
    assert(s.take(k + 3) =~= seq!['$', '('] + name + seq![')']);
    assert(s.skip(k + 3) =~= rest);
    let piece = match api::find(env, name) {
        Some(v) => v,
        None => seq!['$', '('] + name + seq![')'],
    };
    assert(command_expansion(s, env) == piece + command_expansion(rest, env));
    assert(a + (piece + command_expansion(rest, env)) =~= a + piece + command_expansion(rest, env));
    let d = seq!['$', '$'] + rest;
    assert(a + seq!['$', '$'] + rest =~= a + d);
    lemma_plain_front(a, d, env);
    assert(d[0] == '$' && d[1] == '$');
    assert(d.skip(2) =~= rest);
    assert(a + (seq!['$'] + command_expansion(rest, env)) =~= a + seq!['$'] + command_expansion(
        rest,
        env,
    ));
}

/// In a host path the first `${NAME}` is replaced by the variable's value, by nothing where
/// there is none, and the rest likewise. Then `$NAME` is, its name being all of the word
/// characters behind the `$`.
pub proof fn law_host_paths_take_the_variables_values(
    a: Seq<char>,
    name: Seq<char>,
    rest: Seq<char>,
    env: Seq<(Seq<char>, Seq<char>)>,
    n: nat,
)
    requires
        !a.contains('$'),
    ensures
        !name.contains('}') ==> brace_steps(with_reference(a, '{', name, '}', rest), env, n + 1)
            == brace_steps(
            a + (match api::find(env, name) {
                Some(v) => v,
                None => Seq::empty(),
            }) + rest,
            env,
            n,
        ),
        name.len() > 0 && (forall|i: int|
            0 <= i < name.len() ==> alphanumeric(#[trigger] name[i]) || name[i] == '_') && (
        rest.len() > 0 ==> !(alphanumeric(rest[0]) || rest[0] == '_')) ==> word_expansion(
            a + seq!['$'] + name + rest,
            env,
        ) == a + (match api::find(env, name) {
            Some(v) => v,
            None => Seq::empty(),
        }) + word_expansion(rest, env),
{
    let v = or_empty(api::find(env, name));
    if !name.contains('}') {
        lemma_reference_found(a, '{', name, '}', rest);
        let s = with_reference(a, '{', name, '}', rest);
        let i = a.len() as int;
        let j = i + 2 + name.len();
        assert(substituted(s, i, j, v) == a + v + rest);
    }
    if name.len() > 0 && (forall|i: int|
        0 <= i < name.len() ==> alphanumeric(#[trigger] name[i]) || name[i] == '_') && (rest.len()
        > 0 ==> !(alphanumeric(rest[0]) || rest[0] == '_')) {
        let s = seq!['$'] + name + rest;
        assert(a + seq!['$'] + name + rest =~= a + s);
        lemma_plain_front(a, s, env);
        assert(s.skip(1) =~= name + rest);
        lemma_word_len_is(name, rest);
        let k = name.len() as int;
        assert(s.subrange(1, 1 + k) =~= name);
        assert(s.skip(1 + k) =~= rest);
        assert(word_expansion(s, env) == v + word_expansion(rest, env));
        assert(a + (v + word_expansion(rest, env)) =~= a + v + word_expansion(rest, env));
    }
}

proof fn lemma_word_len_is(name: Seq<char>, rest: Seq<char>)
    requires
        forall|i: int| 0 <= i < name.len() ==> alphanumeric(#[trigger] name[i]) || name[i] == '_',
        rest.len() > 0 ==> !(alphanumeric(rest[0]) || rest[0] == '_'),
    ensures
        word_len(name + rest) == name.len(),
    decreases name.len(),
{
    if name.len() > 0 {
        let t = name.drop_first();
        assert(forall|i: int| 0 <= i < t.len() ==> (#[trigger] t[i]) == name[i + 1]);
        lemma_word_len_is(t, rest);
        assert((name + rest).drop_first() =~= t + rest);
        assert((name + rest)[0] == name[0]);
    } else {
        assert(name + rest =~= rest);
    }
}

} // verus!
