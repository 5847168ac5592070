//! What a pod's containers learn of the pod and of their own resources, and what they
//! take from config maps and secrets.

use crate::api;
use crate::api::{ConfigMap, Container, Pod, ResourceFieldSelector, Secret};
use crate::number;
use crate::quantity;
use crate::quantity::DecimalCores;
use crate::runtime::ContainerRuntime;
use crate::text;
use vstd::prelude::*;
use vstd::string::*;
use vstd::utf8::*;

verus! {

/// `a` comes before `b` in the order of their characters' code points.
pub open spec fn before(a: Seq<char>, b: Seq<char>) -> bool
    decreases a.len(),
{
    if b.len() == 0 {
        false
    } else if a.len() == 0 {
        true
    } else if a[0] == b[0] {
        before(a.drop_first(), b.drop_first())
    } else {
        a[0] < b[0]
    }
}

/// The ordered list `s` with `x` put behind everything that does not come after it.
pub open spec fn inserted(s: Seq<(Seq<char>, Seq<char>)>, x: (Seq<char>, Seq<char>)) -> Seq<
    (Seq<char>, Seq<char>),
>
    decreases s.len(),
{
    if s.len() == 0 {
        seq![x]
    } else if before(x.0, s.last().0) {
        inserted(s.drop_last(), x).push(s.last())
    } else {
        s.push(x)
    }
}

/// The pairs in the order of their keys.
pub open spec fn by_key(s: Seq<(Seq<char>, Seq<char>)>) -> Seq<(Seq<char>, Seq<char>)>
    decreases s.len(),
{
    if s.len() == 0 {
        s
    } else {
        inserted(by_key(s.drop_last()), s.last())
    }
}

/// One line `key="value"` for each pair, each ended by a line feed.
pub open spec fn quoted_lines(s: Seq<(Seq<char>, Seq<char>)>) -> Seq<char>
    decreases s.len(),
{
    if s.len() == 0 {
        Seq::empty()
    } else {
        quoted_lines(s.drop_last()) + s.last().0 + "=\""@ + s.last().1 + "\"\n"@
    }
}

/// The pairs of a map, ordered by key, one to a line.
pub open spec fn map_lines(m: Option<Vec<(String, String)>>) -> Seq<char> {
    match m {
        Some(v) => quoted_lines(by_key(api::pair_texts(v@))),
        None => Seq::empty(),
    }
}

/// `o`, or `default`.
pub open spec fn text_or(o: Option<String>, default: Seq<char>) -> Seq<char> {
    match o {
        Some(s) => s@,
        None => default,
    }
}

/// `o`, or `default`.
pub open spec fn seq_or(o: Option<Seq<char>>, default: Seq<char>) -> Seq<char> {
    match o {
        Some(s) => s,
        None => default,
    }
}

/// `path` is `prefix`, a key and `']`.
pub open spec fn selects_key(path: Seq<char>, prefix: Seq<char>) -> bool {
    text::begins(path, prefix) && text::ends(path, "']"@)
}

/// The key that `path` holds between `prefix` and `']`.
pub open spec fn selected_key(path: Seq<char>, prefix: Seq<char>) -> Seq<char> {
    path.subrange(prefix.len() as int, path.len() - 2)
}

/// The opening and the closing of a key share no quote in `path`.
pub open spec fn key_is_closed(path: Seq<char>) -> bool {
    path != "metadata.labels[']"@ && path != "metadata.annotations[']"@
}

/// The value of one field of a pod, or why there is none.
pub open spec fn field_value(pod: Pod, path: Seq<char>) -> Result<Seq<char>, Seq<char>> {
    if path == "metadata.name"@ {
        Ok(pod.metadata.name@)
    } else if path == "metadata.namespace"@ {
        Ok(api::namespace_of(pod))
    } else if path == "metadata.uid"@ {
        Ok(pod.metadata.uid@)
    } else if path == "spec.nodeName"@ {
        Ok(
            match pod.spec {
                Some(s) => text_or(s.node_name, Seq::empty()),
                None => Seq::empty(),
            },
        )
    } else if path == "spec.serviceAccountName"@ {
        Ok(
            match pod.spec {
                Some(s) => text_or(s.service_account_name, "default"@),
                None => "default"@,
            },
        )
    } else if path == "status.podIP"@ {
        Ok(
            match pod.status {
                Some(s) => text_or(s.pod_ip, Seq::empty()),
                None => Seq::empty(),
            },
        )
    } else if path == "status.hostIP"@ {
        Ok(
            match pod.status {
                Some(s) => text_or(s.host_ip, "127.0.0.1"@),
                None => "127.0.0.1"@,
            },
        )
    } else if path == "metadata.labels"@ {
        Ok(map_lines(pod.metadata.labels))
    } else if path == "metadata.annotations"@ {
        Ok(map_lines(pod.metadata.annotations))
    } else if selects_key(path, "metadata.labels['"@) {
        Ok(
            seq_or(
                api::opt_lookup(pod.metadata.labels, selected_key(path, "metadata.labels['"@)),
                Seq::empty(),
            ),
        )
    } else if selects_key(path, "metadata.annotations['"@) {
        Ok(
            seq_or(
                api::opt_lookup(
                    pod.metadata.annotations,
                    selected_key(path, "metadata.annotations['"@),
                ),
                Seq::empty(),
            ),
        )
    } else {
        Err("Unsupported field path: "@ + path)
    }
}

/// The first container of the list with the given name.
pub open spec fn container_named(cs: Seq<Container>, name: Seq<char>) -> Option<Container>
    decreases cs.len(),
{
    if cs.len() == 0 {
        None
    } else if cs[0].name@ == name {
        Some(cs[0])
    } else {
        container_named(cs.drop_first(), name)
    }
}

/// The container that a resource selector speaks of, or why there is none.
pub open spec fn selected_container(pod: Pod, sel: ResourceFieldSelector) -> Result<
    Container,
    Seq<char>,
> {
    match pod.spec {
        None => Err("Pod has no spec"@),
        Some(spec) => match sel.container_name {
            Some(name) => match container_named(spec.containers@, name@) {
                Some(c) => Ok(c),
                None => Err("Container "@ + name@ + " not found"@),
            },
            None => if spec.containers@.len() > 0 {
                Ok(spec.containers@[0])
            } else {
                Err("Pod has no containers"@)
            },
        },
    }
}

/// The quantity that a container sets as its limit of a resource.
pub open spec fn limit_of(c: Container, name: Seq<char>) -> Option<Seq<char>> {
    match c.resources {
        Some(r) => api::opt_lookup(r.limits, name),
        None => None,
    }
}

/// The quantity that a container requests of a resource.
pub open spec fn request_of(c: Container, name: Seq<char>) -> Option<Seq<char>> {
    match c.resources {
        Some(r) => api::opt_lookup(r.requests, name),
        None => None,
    }
}

/// A processor selector's amount and unit in thousandths of a core. Four cores stand
/// for an amount that is not set, one core for the unit that is not set.
pub open spec fn cpu_amount(
    raw: Option<Seq<char>>,
    divisor: Option<String>,
    readings: Seq<(String, i64)>,
) -> (int, int) {
    let amount = match raw {
        Some(s) => quantity::millicores(s, readings),
        None => 4000,
    };
    let d = text_or(divisor, "0"@);
    let unit = if d == "0"@ || d == "1"@ {
        1000
    } else if quantity::millicores(d, readings) >= 1 {
        quantity::millicores(d, readings)
    } else {
        1
    };
    (amount, unit)
}

/// A memory selector's amount and unit in bytes. 8Gi stand for an amount that is not
/// set, one byte for the unit that is not set.
pub open spec fn memory_amount(raw: Option<Seq<char>>, divisor: Option<String>) -> (int, int) {
    let amount = match raw {
        Some(s) => quantity::memory_bytes(s),
        None => 0x2_0000_0000,
    };
    let d = text_or(divisor, "0"@);
    let unit = if d == "0"@ || d == "1"@ {
        1
    } else if quantity::memory_bytes(d) >= 1 {
        quantity::memory_bytes(d)
    } else {
        1
    };
    (amount, unit)
}

/// Amount and unit of a resource selector, or why there are none.
pub open spec fn resource_amount(
    pod: Pod,
    sel: ResourceFieldSelector,
    readings: Seq<(String, i64)>,
) -> Result<(int, int), Seq<char>> {
    match selected_container(pod, sel) {
        Err(e) => Err(e),
        Ok(c) => if sel.resource@ == "limits.cpu"@ {
            Ok(cpu_amount(limit_of(c, "cpu"@), sel.divisor, readings))
        } else if sel.resource@ == "requests.cpu"@ {
            Ok(cpu_amount(request_of(c, "cpu"@), sel.divisor, readings))
        } else if sel.resource@ == "limits.memory"@ {
            Ok(memory_amount(limit_of(c, "memory"@), sel.divisor))
        } else if sel.resource@ == "requests.memory"@ {
            Ok(memory_amount(request_of(c, "memory"@), sel.divisor))
        } else if sel.resource@ == "limits.ephemeral-storage"@ {
            Ok(memory_amount(limit_of(c, "ephemeral-storage"@), sel.divisor))
        } else if sel.resource@ == "requests.ephemeral-storage"@ {
            Ok(memory_amount(request_of(c, "ephemeral-storage"@), sel.divisor))
        } else {
            Err("Unsupported resource field: "@ + sel.resource@)
        },
    }
}

/// The amounts and the sum in the rounding fit in an `i64`.
pub open spec fn resource_fits(
    pod: Pod,
    sel: ResourceFieldSelector,
    readings: Seq<(String, i64)>,
) -> bool {
    let d = text_or(sel.divisor, "0"@);
    resource_amount(pod, sel, readings) matches Ok((n, unit)) ==> {
        &&& i64::MIN <= n <= i64::MAX
        &&& unit <= i64::MAX
        &&& n + unit - 1 <= i64::MAX
        &&& sel.resource@ == "limits.cpu"@ || sel.resource@ == "requests.cpu"@ || d == "0"@ || d
            == "1"@ || quantity::memory_fits(d)
    }
}

/// The text of a resource selector's value, or why there is none.
pub open spec fn resource_value(
    pod: Pod,
    sel: ResourceFieldSelector,
    readings: Seq<(String, i64)>,
) -> Result<Seq<char>, Seq<char>> {
    match resource_amount(pod, sel, readings) {
        Ok((n, d)) => Ok(number::decimal(quantity::units(n, d))),
        Err(e) => Err(e),
    }
}

proof fn lemma_inserted_multiset(s: Seq<(Seq<char>, Seq<char>)>, x: (Seq<char>, Seq<char>))
    ensures
        inserted(s, x).to_multiset() == s.to_multiset().insert(x),
        inserted(s, x).len() == s.len() + 1,
    decreases s.len(),
{
    broadcast use vstd::seq_lib::group_to_multiset_ensures;

    if s.len() == 0 {
        assert(seq![x] == Seq::<(Seq<char>, Seq<char>)>::empty().push(x));
        assert(s == Seq::<(Seq<char>, Seq<char>)>::empty());
    } else if before(x.0, s.last().0) {
        lemma_inserted_multiset(s.drop_last(), x);
        assert(s == s.drop_last().push(s.last()));
        assert(inserted(s, x).to_multiset() =~= s.to_multiset().insert(x));
    }
}

/// The keys of `s` never step back.
pub open spec fn keys_ordered(s: Seq<(Seq<char>, Seq<char>)>) -> bool {
    forall|i: int| 0 <= i && i + 1 < s.len() ==> !before(s[i + 1].0, (#[trigger] s[i]).0)
}

proof fn lemma_before_asymmetric(a: Seq<char>, b: Seq<char>)
    requires
        before(a, b),
    ensures
        !before(b, a),
    decreases a.len(),
{
    if a.len() > 0 && b.len() > 0 && a[0] == b[0] {
        lemma_before_asymmetric(a.drop_first(), b.drop_first());
    }
}

proof fn lemma_inserted_ordered(s: Seq<(Seq<char>, Seq<char>)>, x: (Seq<char>, Seq<char>))
    requires
        keys_ordered(s),
    ensures
        keys_ordered(inserted(s, x)),
        inserted(s, x).last() == x || (s.len() > 0 && inserted(s, x).last() == s.last()),
    decreases s.len(),
{
    if s.len() == 0 {
    } else if before(x.0, s.last().0) {
        let t = s.drop_last();
        assert(keys_ordered(t)) by {
            assert forall|i: int| 0 <= i && i + 1 < t.len() implies !before(
                t[i + 1].0,
                (#[trigger] t[i]).0,
            ) by {
                assert(t[i] == s[i]);
                assert(t[i + 1] == s[i + 1]);
            }
        }
        lemma_inserted_ordered(t, x);
        lemma_inserted_multiset(t, x);
        lemma_before_asymmetric(x.0, s.last().0);
        let u = inserted(t, x);
        let r = u.push(s.last());
        assert forall|i: int| 0 <= i && i + 1 < r.len() implies !before(
            r[i + 1].0,
            (#[trigger] r[i]).0,
        ) by {
            if i + 1 < u.len() {
                assert(r[i] == u[i]);
                assert(r[i + 1] == u[i + 1]);
            } else {
                assert(r[i] == u.last());
                if u.last() != x {
                    assert(t.len() > 0);
                    assert(s[s.len() - 2] == t.last());
                    assert(!before(s[s.len() - 2 + 1].0, s[s.len() - 2].0));
                }
            }
        }
    } else {
        let r = s.push(x);
        assert forall|i: int| 0 <= i && i + 1 < r.len() implies !before(
            r[i + 1].0,
            (#[trigger] r[i]).0,
        ) by {
            if i + 1 < s.len() {
                assert(r[i] == s[i]);
                assert(r[i + 1] == s[i + 1]);
            }
        }
    }
}

/// Ordering the pairs of a map by key loses none, adds none and leaves no key behind a
/// later one.
pub proof fn law_by_key_orders(s: Seq<(Seq<char>, Seq<char>)>)
    ensures
        by_key(s).to_multiset() == s.to_multiset(),
        keys_ordered(by_key(s)),
    decreases s.len(),
{
    broadcast use vstd::seq_lib::group_to_multiset_ensures;

    if s.len() > 0 {
        law_by_key_orders(s.drop_last());
        lemma_inserted_multiset(by_key(s.drop_last()), s.last());
        lemma_inserted_ordered(by_key(s.drop_last()), s.last());
        assert(s == s.drop_last().push(s.last()));
    }
}

/// Whether `a` comes before `b`.
fn is_before(a: &str, b: &str) -> (r: bool)
    ensures
        r == before(a@, b@),
{
    let x = text::chars_of(a);
    let y = text::chars_of(b);
    let mut i: usize = 0;
    assert(x@.skip(0) == x@);
    assert(y@.skip(0) == y@);
    while i < x.len() && i < y.len()
        invariant
            i <= x@.len(),
            i <= y@.len(),
            before(a@, b@) == before(x@.skip(i as int), y@.skip(i as int)),
        decreases x@.len() - i,
    {
        assert(x@.skip(i as int)[0] == x@[i as int]);
        assert(y@.skip(i as int)[0] == y@[i as int]);
        if x[i] != y[i] {
            return x[i] < y[i];
        }
        assert(x@.skip(i as int).drop_first() == x@.skip(i + 1));
        assert(y@.skip(i as int).drop_first() == y@.skip(i + 1));
        i += 1;
    }
    i < y.len()
}

/// Positions of the pairs of `v`, in the order of the keys.
fn key_order(v: &Vec<(String, String)>) -> (r: Vec<usize>)
    ensures
        forall|i: int| 0 <= i < r@.len() ==> (#[trigger] r@[i]) < v@.len(),
        r@.map_values(|k: usize| (v@[k as int].0@, v@[k as int].1@)) == by_key(api::pair_texts(v@)),
{
    let mut r: Vec<usize> = Vec::new();
    let mut n: usize = 0;
    let ghost all = api::pair_texts(v@);
    let ghost at = |k: usize| (v@[k as int].0@, v@[k as int].1@);
    assert(all.take(0) == Seq::<(Seq<char>, Seq<char>)>::empty());
    assert(r@.map_values(at) == Seq::<(Seq<char>, Seq<char>)>::empty());
    while n < v.len()
        invariant
            n <= v@.len(),
            all == api::pair_texts(v@),
            at == (|k: usize| (v@[k as int].0@, v@[k as int].1@)),
            forall|i: int| 0 <= i < r@.len() ==> (#[trigger] r@[i]) < v@.len(),
            r@.map_values(at) == by_key(all.take(n as int)),
        decreases v@.len() - n,
    {
        let ghost x = all[n as int];
        let ghost old_r = r@;
        assert(all.take(n as int + 1).drop_last() == all.take(n as int));
        assert(all.take(n as int + 1).last() == x);
        let mut p: usize = r.len();
        assert(old_r.take(p as int) == old_r);
        assert(old_r.skip(p as int) == Seq::<usize>::empty());
        assert(inserted(old_r.map_values(at), x) == inserted(
            old_r.take(p as int).map_values(at),
            x,
        ) + old_r.skip(p as int).map_values(at));
        while p > 0 && is_before(v[n].0.as_str(), v[r[p - 1]].0.as_str())
            invariant
                p <= r@.len(),
                n < v@.len(),
                r@ == old_r,
                x == (v@[n as int].0@, v@[n as int].1@),
                at == (|k: usize| (v@[k as int].0@, v@[k as int].1@)),
                forall|i: int| 0 <= i < r@.len() ==> (#[trigger] r@[i]) < v@.len(),
                inserted(old_r.map_values(at), x) == inserted(
                    old_r.take(p as int).map_values(at),
                    x,
                ) + old_r.skip(p as int).map_values(at),
            decreases p,
        {
            let ghost s = old_r.take(p as int).map_values(at);
            assert(s.last() == at(old_r[p - 1]));
            assert(s.drop_last() == old_r.take(p - 1).map_values(at));
            assert(inserted(s, x) == inserted(s.drop_last(), x).push(s.last()));
            assert(old_r.skip(p - 1).map_values(at) == seq![s.last()] + old_r.skip(
                p as int,
            ).map_values(at));
            assert(inserted(s, x) + old_r.skip(p as int).map_values(at) == inserted(
                s.drop_last(),
                x,
            ) + old_r.skip(p - 1).map_values(at));
            p -= 1;
        }
        proof {
            let s = old_r.take(p as int).map_values(at);
            if p > 0 {
                assert(s.last() == at(old_r[p - 1]));
            }
            assert(inserted(s, x) == s.push(x));
        }
        r.insert(p, n);
        assert(r@.map_values(at) == old_r.take(p as int).map_values(at).push(x) + old_r.skip(
            p as int,
        ).map_values(at));
        assert forall|i: int| 0 <= i < r@.len() implies (#[trigger] r@[i]) < v@.len() by {
            if i < p {
                assert(r@[i] == old_r[i]);
            } else if i > p {
                assert(r@[i] == old_r[i - 1]);
            }
        }
        n += 1;
    }
    assert(all.take(n as int) == all);
    r
}

/// The pairs of a map, ordered by key, one `key="value"` to a line.
fn show_map(m: &Option<Vec<(String, String)>>) -> (r: String)
    ensures
        r@ == map_lines(*m),
{
    match m {
        None => String::new(),
        Some(v) => {
            let order = key_order(v);
            let mut r = String::new();
            let mut i: usize = 0;
            let ghost sorted = by_key(api::pair_texts(v@));
            assert(sorted.take(0) == Seq::<(Seq<char>, Seq<char>)>::empty());
            while i < order.len()
                invariant
                    i <= order@.len(),
                    forall|j: int| 0 <= j < order@.len() ==> (#[trigger] order@[j]) < v@.len(),
                    sorted == order@.map_values(|k: usize| (v@[k as int].0@, v@[k as int].1@)),
                    r@ == quoted_lines(sorted.take(i as int)),
                decreases order@.len() - i,
            {
                let k: usize = order[i];
                assert(sorted[i as int] == (v@[k as int].0@, v@[k as int].1@));
                assert(sorted.take(i as int + 1).drop_last() == sorted.take(i as int));
                r.append(v[k].0.as_str());
                r.append("=\"");
                r.append(v[k].1.as_str());
                r.append("\"\n");
                i += 1;
            }
            assert(sorted.take(sorted.len() as int) == sorted);
            r
        },
    }
}

/// `o`, or `default`.
pub fn str_or<'a>(o: &'a Option<String>, default: &'a str) -> (r: &'a str)
    ensures
        r@ == text_or(*o, default@),
{
    match o {
        Some(s) => s.as_str(),
        None => default,
    }
}

/// The value of the key that `path` names between `prefix` and `']`.
fn value_at_key(map: &Option<Vec<(String, String)>>, path: &str, prefix: &str) -> (r: String)
    requires
        selects_key(path@, prefix@),
        path@.len() >= prefix@.len() + 2,
    ensures
        r@ == seq_or(api::opt_lookup(*map, selected_key(path@, prefix@)), Seq::empty()),
{
    let n: usize = path.unicode_len();
    let k: usize = prefix.unicode_len();
    let key = path.substring_char(k, n - 2);
    match api::opt_get(map, key) {
        Some(v) => String::from_str(v),
        None => String::new(),
    }
}

/// A path that opens a key and closes it is longer than both marks together, but for
/// the two paths in which they share their quote.
proof fn lemma_key_room(path: Seq<char>)
    requires
        key_is_closed(path),
    ensures
        selects_key(path, "metadata.labels['"@) ==> path.len() >= "metadata.labels['"@.len() + 2,
        selects_key(path, "metadata.annotations['"@) ==> path.len()
            >= "metadata.annotations['"@.len() + 2,
{
    reveal_strlit("']");
    reveal_strlit("metadata.labels['");
    reveal_strlit("metadata.labels[']");
    reveal_strlit("metadata.annotations['");
    reveal_strlit("metadata.annotations[']");
    if selects_key(path, "metadata.labels['"@) && path.len() < "metadata.labels['"@.len() + 2 {
        assert(path.skip(path.len() - 2)[1] == ']');
        assert(path[path.len() - 1] == ']');
        assert(path.take(17)[16] == '\'');
        assert(path.len() == 18);
        assert forall|i: int| 0 <= i < 18 implies path[i] == "metadata.labels[']"@[i] by {
            if i < 17 {
                assert(path.take(17)[i] == path[i]);
            }
        }
        assert(path == "metadata.labels[']"@);
    }
    if selects_key(path, "metadata.annotations['"@) && path.len() < "metadata.annotations['"@.len()
        + 2 {
        assert(path.skip(path.len() - 2)[1] == ']');
        assert(path[path.len() - 1] == ']');
        assert(path.take(22)[21] == '\'');
        assert(path.len() == 23);
        assert forall|i: int| 0 <= i < 23 implies path[i] == "metadata.annotations[']"@[i] by {
            if i < 22 {
                assert(path.take(22)[i] == path[i]);
            }
        }
        assert(path == "metadata.annotations[']"@);
    }
}

/// The limit or request that a container sets for a resource.
fn quantity_of<'a>(c: &'a Container, limits: bool, name: &str) -> (r: Option<&'a str>)
    ensures
        (match r {
            Some(v) => Some(v@),
            None => None::<Seq<char>>,
        }) == (if limits {
            limit_of(*c, name@)
        } else {
            request_of(*c, name@)
        }),
{
    match &c.resources {
        None => None,
        Some(res) => if limits {
            api::opt_get(&res.limits, name)
        } else {
            api::opt_get(&res.requests, name)
        },
    }
}

/// The text of a resource amount.
fn show_units(n: i64, d: i64) -> (r: String)
    requires
        d >= 1,
        n + d - 1 <= i64::MAX,
    ensures
        r@ == number::decimal(quantity::units(n as int, d as int)),
{
    number::show_i64(quantity::units_of(n, d))
}

fn show_cpu(raw: Option<&str>, divisor: &Option<String>, readings: &DecimalCores) -> (r: String)
    requires
        ({
            let (n, d) = cpu_amount(
                match raw {
                    Some(v) => Some(v@),
                    None => None,
                },
                *divisor,
                readings@,
            );
            n + d - 1 <= i64::MAX
        }),
    ensures
        r@ == ({
            let (n, d) = cpu_amount(
                match raw {
                    Some(v) => Some(v@),
                    None => None,
                },
                *divisor,
                readings@,
            );
            number::decimal(quantity::units(n, d))
        }),
{
    let n: i64 = match raw {
        Some(s) => quantity::parse_cpu_quantity(s, readings),
        None => 4000,
    };
    let div = str_or(divisor, "0");
    let d: i64 = if text::same(div, "0") || text::same(div, "1") {
        1000
    } else {
        let m: i64 = quantity::parse_cpu_quantity(div, readings);
        if 1 <= m {
            m
        } else {
            1
        }
    };
    show_units(n, d)
}

fn show_memory(raw: Option<&str>, divisor: &Option<String>) -> (r: String)
    requires
        ({
            let (n, d) = memory_amount(
                match raw {
                    Some(v) => Some(v@),
                    None => None,
                },
                *divisor,
            );
            i64::MIN <= n <= i64::MAX && d <= i64::MAX && n + d - 1 <= i64::MAX
        }),
        text_or(*divisor, "0"@) == "0"@ || text_or(*divisor, "0"@) == "1"@
            || quantity::memory_fits(text_or(*divisor, "0"@)),
    ensures
        r@ == ({
            let (n, d) = memory_amount(
                match raw {
                    Some(v) => Some(v@),
                    None => None,
                },
                *divisor,
            );
            number::decimal(quantity::units(n, d))
        }),
{
    let n: i64 = match raw {
        Some(s) => quantity::parse_memory_quantity(s),
        None => 0x2_0000_0000,
    };
    let div = str_or(divisor, "0");
    let d: i64 = if text::same(div, "0") || text::same(div, "1") {
        1
    } else {
        let m: i64 = quantity::parse_memory_quantity(div);
        if 1 <= m {
            m
        } else {
            1
        }
    };
    show_units(n, d)
}

impl ContainerRuntime {
    /// The value of one field of a pod, by its path.
    pub fn get_pod_field_value(&self, pod: &Pod, field_path: &str) -> (r: Result<String, String>)
        requires
            key_is_closed(field_path@),
        ensures
            (match r {
                Ok(v) => Ok::<Seq<char>, Seq<char>>(v@),
                Err(e) => Err(e@),
            }) == field_value(*pod, field_path@),
    {
        if text::same(field_path, "metadata.name") {
            Ok(pod.metadata.name.clone())
        } else if text::same(field_path, "metadata.namespace") {
            Ok(String::from_str(pod.namespace()))
        } else if text::same(field_path, "metadata.uid") {
            Ok(pod.metadata.uid.clone())
        } else if text::same(field_path, "spec.nodeName") {
            match &pod.spec {
                Some(s) => match &s.node_name {
                    Some(n) => Ok(n.clone()),
                    None => Ok(String::new()),
                },
                None => Ok(String::new()),
            }
        } else if text::same(field_path, "spec.serviceAccountName") {
            match &pod.spec {
                Some(s) => Ok(String::from_str(str_or(&s.service_account_name, "default"))),
                None => Ok(String::from_str("default")),
            }
        } else if text::same(field_path, "status.podIP") {
            match &pod.status {
                Some(s) => match &s.pod_ip {
                    Some(ip) => Ok(ip.clone()),
                    None => Ok(String::new()),
                },
                None => Ok(String::new()),
            }
        } else if text::same(field_path, "status.hostIP") {
            match &pod.status {
                Some(s) => Ok(String::from_str(str_or(&s.host_ip, "127.0.0.1"))),
                None => Ok(String::from_str("127.0.0.1")),
            }
        } else if text::same(field_path, "metadata.labels") {
            Ok(show_map(&pod.metadata.labels))
        } else if text::same(field_path, "metadata.annotations") {
            Ok(show_map(&pod.metadata.annotations))
        } else {
            proof {
                lemma_key_room(field_path@);
            }
            if text::starts_with(field_path, "metadata.labels['") && text::ends_with(
                field_path,
                "']",
            ) {
                Ok(value_at_key(&pod.metadata.labels, field_path, "metadata.labels['"))
            } else if text::starts_with(field_path, "metadata.annotations['") && text::ends_with(
                field_path,
                "']",
            ) {
                Ok(value_at_key(&pod.metadata.annotations, field_path, "metadata.annotations['"))
            } else {
                Err(text::cat2("Unsupported field path: ", field_path))
            }
        }
    }

    /// A container's resource limit or request in units of the selector's divisor, the
    /// quotient rounded up.
    pub fn get_container_resource_value(
        &self,
        pod: &Pod,
        resource_ref: &ResourceFieldSelector,
        readings: &DecimalCores,
    ) -> (r: Result<String, String>)
        requires
            resource_fits(*pod, *resource_ref, readings@),
        ensures
            (match r {
                Ok(v) => Ok::<Seq<char>, Seq<char>>(v@),
                Err(e) => Err(e@),
            }) == resource_value(*pod, *resource_ref, readings@),
    {
        let spec = match &pod.spec {
            Some(s) => s,
            None => {
                return Err(String::from_str("Pod has no spec"));
            },
        };
        let container: &Container = match &resource_ref.container_name {
            Some(name) => match find_container(&spec.containers, name.as_str()) {
                Some(c) => c,
                None => {
                    return Err(text::cat3("Container ", name.as_str(), " not found"));
                },
            },
            None => {
                if spec.containers.len() == 0 {
                    return Err(String::from_str("Pod has no containers"));
                }
                &spec.containers[0]
            },
        };
        let resource = resource_ref.resource.as_str();
        let divisor = &resource_ref.divisor;
        if text::same(resource, "limits.cpu") {
            Ok(show_cpu(quantity_of(container, true, "cpu"), divisor, readings))
        } else if text::same(resource, "requests.cpu") {
            Ok(show_cpu(quantity_of(container, false, "cpu"), divisor, readings))
        } else if text::same(resource, "limits.memory") {
            Ok(show_memory(quantity_of(container, true, "memory"), divisor))
        } else if text::same(resource, "requests.memory") {
            Ok(show_memory(quantity_of(container, false, "memory"), divisor))
        } else if text::same(resource, "limits.ephemeral-storage") {
            Ok(show_memory(quantity_of(container, true, "ephemeral-storage"), divisor))
        } else if text::same(resource, "requests.ephemeral-storage") {
            Ok(show_memory(quantity_of(container, false, "ephemeral-storage"), divisor))
        } else {
            Err(text::cat2("Unsupported resource field: ", resource))
        }
    }
}

/// The value of one key of a config map, or why there is none. `found` is the config
/// map, where storage holds it.
pub open spec fn config_map_value(
    found: Option<ConfigMap>,
    namespace: Seq<char>,
    name: Seq<char>,
    key: Seq<char>,
) -> Result<Seq<char>, Seq<char>> {
    match found {
        None => Err("ConfigMap "@ + name + " not found in namespace "@ + namespace),
        Some(m) => match api::opt_lookup(m.data, key) {
            Some(v) => Ok(v),
            None => Err("Key "@ + key + " not found in ConfigMap "@ + name),
        },
    }
}

/// The text of one key of a secret, or why there is none. `found` is the secret, where
/// storage holds it.
pub open spec fn secret_value(
    found: Option<Secret>,
    namespace: Seq<char>,
    name: Seq<char>,
    key: Seq<char>,
) -> Result<Seq<char>, Seq<char>> {
    match found {
        None => Err("Secret "@ + name + " not found in namespace "@ + namespace),
        Some(s) => match api::opt_lookup_bytes(s.data, key) {
            Some(b) if valid_utf8(b) => Ok(decode_utf8(b)),
            _ => Err("Key "@ + key + " not found in Secret "@ + name),
        },
    }
}

impl ContainerRuntime {
    /// The value of one key of a config map, for an environment variable.
    pub fn get_configmap_value(
        &self,
        found: &Option<ConfigMap>,
        namespace: &str,
        name: &str,
        key: &str,
    ) -> (r: Result<String, String>)
        ensures
            (match r {
                Ok(v) => Ok::<Seq<char>, Seq<char>>(v@),
                Err(e) => Err(e@),
            }) == config_map_value(*found, namespace@, name@, key@),
    {
        match found {
            None => Err(text::cat4("ConfigMap ", name, " not found in namespace ", namespace)),
            Some(m) => match api::opt_get(&m.data, key) {
                Some(v) => Ok(String::from_str(v)),
                None => Err(text::cat4("Key ", key, " not found in ConfigMap ", name)),
            },
        }
    }

    /// The text of one key of a secret, for an environment variable. Bytes that are not
    /// UTF-8 count as missing.
    pub fn get_secret_value(
        &self,
        found: &Option<Secret>,
        namespace: &str,
        name: &str,
        key: &str,
    ) -> (r: Result<String, String>)
        ensures
            (match r {
                Ok(v) => Ok::<Seq<char>, Seq<char>>(v@),
                Err(e) => Err(e@),
            }) == secret_value(*found, namespace@, name@, key@),
    {
        match found {
            None => Err(text::cat4("Secret ", name, " not found in namespace ", namespace)),
            Some(s) => {
                match api::opt_get_bytes(&s.data, key) {
                    Some(b) => match text::utf8_text(b) {
                        Some(v) => Ok(v),
                        None => Err(text::cat4("Key ", key, " not found in Secret ", name)),
                    },
                    None => Err(text::cat4("Key ", key, " not found in Secret ", name)),
                }
            },
        }
    }
}

/// Whether the amounts of a resource selector, and the sum in its rounding, fit.
pub fn resource_value_fits(
    pod: &Pod,
    resource_ref: &ResourceFieldSelector,
    readings: &DecimalCores,
) -> (r: bool)
    ensures
        r == resource_fits(*pod, *resource_ref, readings@),
{
    let spec = match &pod.spec {
        Some(s) => s,
        None => {
            return true;
        },
    };
    let container: &Container = match &resource_ref.container_name {
        Some(name) => match find_container(&spec.containers, name.as_str()) {
            Some(c) => c,
            None => {
                return true;
            },
        },
        None => {
            if spec.containers.len() == 0 {
                return true;
            }
            &spec.containers[0]
        },
    };
    let resource = resource_ref.resource.as_str();
    let limits: bool = text::starts_with(resource, "limits.");
    let div = str_or(&resource_ref.divisor, "0");
    let plain: bool = text::same(div, "0") || text::same(div, "1");
    proof {
        lemma_resource_kinds();
    }
    if text::same(resource, "limits.cpu") || text::same(resource, "requests.cpu") {
        let n: i128 = match quantity_of(container, limits, "cpu") {
            Some(s) => quantity::parse_cpu_quantity(s, readings) as i128,
            None => 4000,
        };
        let d: i128 = if plain {
            1000
        } else {
            let m: i64 = quantity::parse_cpu_quantity(div, readings);
            if m < 1 {
                1
            } else {
                m as i128
            }
        };
        n + d - 1 <= 0x7fff_ffff_ffff_ffff
    } else if text::same(resource, "limits.memory") || text::same(resource, "requests.memory")
        || text::same(resource, "limits.ephemeral-storage") || text::same(
        resource,
        "requests.ephemeral-storage",
    ) {
        let storage: bool = text::ends_with(resource, "storage");
        let raw = if storage {
            quantity_of(container, limits, "ephemeral-storage")
        } else {
            quantity_of(container, limits, "memory")
        };
        let n: i128 = match raw {
            Some(s) => {
                if !quantity::memory_quantity_fits(s) {
                    return false;
                }
                quantity::parse_memory_quantity(s) as i128
            },
            None => 0x2_0000_0000,
        };
        let d: i128 = if plain {
            1
        } else {
            if !quantity::memory_quantity_fits(div) {
                return false;
            }
            let m: i64 = quantity::parse_memory_quantity(div);
            if m < 1 {
                1
            } else {
                m as i128
            }
        };
        n + d - 1 <= 0x7fff_ffff_ffff_ffff
    } else {
        true
    }
}

/// Which of the six resource names are limits, and which are of storage.
proof fn lemma_resource_kinds()
    ensures
        text::begins("limits.cpu"@, "limits."@),
        text::begins("limits.memory"@, "limits."@),
        text::begins("limits.ephemeral-storage"@, "limits."@),
        !text::begins("requests.cpu"@, "limits."@),
        !text::begins("requests.memory"@, "limits."@),
        !text::begins("requests.ephemeral-storage"@, "limits."@),
        !text::ends("limits.memory"@, "storage"@),
        !text::ends("requests.memory"@, "storage"@),
        text::ends("limits.ephemeral-storage"@, "storage"@),
        text::ends("requests.ephemeral-storage"@, "storage"@),
{
    reveal_strlit("limits.");
    reveal_strlit("storage");
    reveal_strlit("limits.cpu");
    reveal_strlit("limits.memory");
    reveal_strlit("limits.ephemeral-storage");
    reveal_strlit("requests.cpu");
    reveal_strlit("requests.memory");
    reveal_strlit("requests.ephemeral-storage");
    assert("limits.cpu"@.take(7) == "limits."@);
    assert("limits.memory"@.take(7) == "limits."@);
    assert("limits.ephemeral-storage"@.take(7) == "limits."@);
    assert("requests.cpu"@.take(7)[0] != "limits."@[0]);
    assert("requests.memory"@.take(7)[0] != "limits."@[0]);
    assert("requests.ephemeral-storage"@.take(7)[0] != "limits."@[0]);
    assert("limits.memory"@.skip(6)[6] != "storage"@[6]);
    assert("requests.memory"@.skip(8)[6] != "storage"@[6]);
    assert("limits.ephemeral-storage"@.skip(17) == "storage"@);
    assert("requests.ephemeral-storage"@.skip(19) == "storage"@);
}

/// The first container of the list with the given name.
pub fn find_container<'a>(cs: &'a Vec<Container>, name: &str) -> (r: Option<&'a Container>)
    ensures
        (match r {
            Some(c) => Some(*c),
            None => None::<Container>,
        }) == container_named(cs@, name@),
{
    let mut i: usize = 0;
    assert(cs@.skip(0) == cs@);
    while i < cs.len()
        invariant
            i <= cs@.len(),
            container_named(cs@, name@) == container_named(cs@.skip(i as int), name@),
        decreases cs@.len() - i,
    {
        assert(cs@.skip(i as int)[0] == cs@[i as int]);
        assert(cs@.skip(i as int).drop_first() == cs@.skip(i + 1));
        if text::same(cs[i].name.as_str(), name) {
            return Some(&cs[i]);
        }
        i += 1;
    }
    None
}

/// The first container of a name is found by it.
pub proof fn law_containers_are_found_by_name(cs: Seq<Container>, name: Seq<char>, k: int)
    requires
        0 <= k <= cs.len(),
        forall|j: int| 0 <= j < k ==> (#[trigger] cs[j]).name@ != name,
    ensures
        k < cs.len() && cs[k].name@ == name ==> container_named(cs, name) == Some(cs[k]),
        k == cs.len() ==> container_named(cs, name) is None,
    decreases cs.len(),
{
    if cs.len() > 0 && k > 0 {
        let rest = cs.drop_first();
        assert(cs[0].name@ != name);
        assert forall|j: int| 0 <= j < k - 1 implies (#[trigger] rest[j]).name@ != name by {
            assert(rest[j] == cs[j + 1]);
        }
        law_containers_are_found_by_name(rest, name, k - 1);
        if k < cs.len() {
            assert(rest[k - 1] == cs[k]);
        }
    }
}

/// A pod's fields are told as they are: an unset node or address as nothing, an unset service
/// account as `default`, and an unset host as this one.
pub proof fn law_fields_are_told_as_they_are(pod: Pod)
    ensures
        field_value(pod, "metadata.name"@) == Ok::<Seq<char>, Seq<char>>(pod.metadata.name@),
        field_value(pod, "metadata.uid"@) == Ok::<Seq<char>, Seq<char>>(pod.metadata.uid@),
        pod.metadata.namespace matches Some(n) ==> field_value(pod, "metadata.namespace"@) == Ok::<
            Seq<char>,
            Seq<char>,
        >(n@),
        pod.metadata.namespace is None ==> field_value(pod, "metadata.namespace"@) == Ok::<
            Seq<char>,
            Seq<char>,
        >("default"@),
        pod.spec matches Some(s) ==> {
            &&& s.node_name matches Some(n) ==> field_value(pod, "spec.nodeName"@) == Ok::<
                Seq<char>,
                Seq<char>,
            >(n@)
            &&& s.service_account_name matches Some(n) ==> field_value(
                pod,
                "spec.serviceAccountName"@,
            ) == Ok::<Seq<char>, Seq<char>>(n@)
            &&& s.service_account_name is None ==> field_value(pod, "spec.serviceAccountName"@)
                == Ok::<Seq<char>, Seq<char>>("default"@)
        },
        pod.status matches Some(s) ==> {
            &&& s.pod_ip matches Some(a) ==> field_value(pod, "status.podIP"@) == Ok::<
                Seq<char>,
                Seq<char>,
            >(a@)
            &&& s.host_ip matches Some(a) ==> field_value(pod, "status.hostIP"@) == Ok::<
                Seq<char>,
                Seq<char>,
            >(a@)
        },
        pod.status is None ==> field_value(pod, "status.hostIP"@) == Ok::<Seq<char>, Seq<char>>(
            "127.0.0.1"@,
        ),
        field_value(pod, "metadata.labels"@) == Ok::<Seq<char>, Seq<char>>(
            map_lines(pod.metadata.labels),
        ),
        field_value(pod, "metadata.annotations"@) == Ok::<Seq<char>, Seq<char>>(
            map_lines(pod.metadata.annotations),
        ),
{
    reveal_strlit("metadata.name");
    reveal_strlit("metadata.namespace");
    reveal_strlit("metadata.uid");
    reveal_strlit("spec.nodeName");
    reveal_strlit("spec.serviceAccountName");
    reveal_strlit("status.podIP");
    reveal_strlit("status.hostIP");
    reveal_strlit("metadata.labels");
    reveal_strlit("metadata.annotations");
    assert("metadata.name"@.len() == 13 && "spec.nodeName"@.len() == 13 && "metadata.name"@[0] == 'm'
        && "spec.nodeName"@[0] == 's');
    assert("metadata.uid"@.len() == 12 && "status.podIP"@.len() == 12 && "metadata.uid"@[0] == 'm'
        && "status.podIP"@[0] == 's');
    assert("metadata.namespace"@.len() == 18);
    assert("spec.serviceAccountName"@.len() == 23);
    assert("status.hostIP"@.len() == 13 && "status.hostIP"@[1] == 't' && "spec.nodeName"@[1] == 'p');
    assert("metadata.labels"@.len() == 15);
    assert("metadata.annotations"@.len() == 20);
}

/// A single label or annotation is told by its key, as nothing where the pod has none of that
/// key.
pub proof fn law_single_labels_are_told(pod: Pod, key: Seq<char>)
    ensures
        ({
            let v = field_value(pod, "metadata.labels['"@ + key + "']"@);
            &&& api::opt_lookup(pod.metadata.labels, key) matches Some(t) ==> v == Ok::<
                Seq<char>,
                Seq<char>,
            >(t)
            &&& api::opt_lookup(pod.metadata.labels, key) is None ==> v == Ok::<
                Seq<char>,
                Seq<char>,
            >(Seq::empty())
        }),
        ({
            let v = field_value(pod, "metadata.annotations['"@ + key + "']"@);
            &&& api::opt_lookup(pod.metadata.annotations, key) matches Some(t) ==> v == Ok::<
                Seq<char>,
                Seq<char>,
            >(t)
            &&& api::opt_lookup(pod.metadata.annotations, key) is None ==> v == Ok::<
                Seq<char>,
                Seq<char>,
            >(Seq::empty())
        }),
{
    let a = "metadata.labels['"@;
    let b = "metadata.annotations['"@;
    let e = "']"@;
    reveal_strlit("']");
    reveal_strlit("metadata.labels['");
    reveal_strlit("metadata.annotations['");
    lemma_key_path(a, key);
    lemma_key_path(b, key);
    let p = a + key + e;
    let q = b + key + e;
    assert(!text::begins(q, a)) by {
        assert(q[9] == 'a');
        assert(a[9] == 'l');
        if text::begins(q, a) {
            assert(q.take(a.len() as int)[9] == a[9]);
        }
    }
}

/// A path that closes a key is none of the plain ones.
proof fn lemma_key_path(prefix: Seq<char>, key: Seq<char>)
    requires
        prefix == "metadata.labels['"@ || prefix == "metadata.annotations['"@,
    ensures
        ({
            let p = prefix + key + "']"@;
            &&& selects_key(p, prefix)
            &&& selected_key(p, prefix) == key
            &&& p != "metadata.name"@ && p != "metadata.namespace"@ && p != "metadata.uid"@
            &&& p != "spec.nodeName"@ && p != "spec.serviceAccountName"@
            &&& p != "status.podIP"@ && p != "status.hostIP"@
            &&& p != "metadata.labels"@ && p != "metadata.annotations"@
        }),
{
    let p = prefix + key + "']"@;
    reveal_strlit("']");
    assert(p.take(prefix.len() as int) =~= prefix);
    assert(p.skip(p.len() - 2) =~= "']"@);
    assert(selected_key(p, prefix) =~= key);
    assert(p.last() == ']');
    reveal_strlit("metadata.name");
    reveal_strlit("metadata.namespace");
    reveal_strlit("metadata.uid");
    reveal_strlit("spec.nodeName");
    reveal_strlit("spec.serviceAccountName");
    reveal_strlit("status.podIP");
    reveal_strlit("status.hostIP");
    reveal_strlit("metadata.labels");
    reveal_strlit("metadata.annotations");
    assert("metadata.name"@.last() == 'e' && "metadata.namespace"@.last() == 'e');
    assert("metadata.uid"@.last() == 'd' && "spec.nodeName"@.last() == 'e');
    assert("spec.serviceAccountName"@.last() == 'e');
    assert("status.podIP"@.last() == 'P' && "status.hostIP"@.last() == 'P');
    assert("metadata.labels"@.last() == 's' && "metadata.annotations"@.last() == 's');
}

proof fn lemma_line_in(s: Seq<(Seq<char>, Seq<char>)>, i: int)
    requires
        0 <= i < s.len(),
    ensures
        text::has(quoted_lines(s), s[i].0 + "=\""@ + s[i].1 + "\"\n"@),
    decreases s.len(),
{
    let line = s[i].0 + "=\""@ + s[i].1 + "\"\n"@;
    let all = quoted_lines(s);
    let before = quoted_lines(s.drop_last());
    if i == s.len() - 1 {
        assert(all =~= before + line);
        assert(all.subrange(before.len() as int, (before.len() + line.len()) as int) =~= line);
        assert(text::occurs_at(all, line, before.len() as int));
    } else {
        assert(s.drop_last()[i] == s[i]);
        lemma_line_in(s.drop_last(), i);
        let k = choose|k: int| text::occurs_at(before, line, k);
        assert(all.subrange(k, k + line.len()) =~= before.subrange(k, k + line.len()));
        assert(text::occurs_at(all, line, k));
    }
}

/// All labels or annotations together are told with a line `key="value"` for each.
pub proof fn law_every_label_is_told(m: Vec<(String, String)>, i: int)
    requires
        0 <= i < m@.len(),
    ensures
        text::has(map_lines(Some(m)), m@[i].0@ + "=\""@ + m@[i].1@ + "\"\n"@),
        map_lines(None) == Seq::<char>::empty(),
{
    let s = api::pair_texts(m@);
    let t = by_key(s);
    law_by_key_orders(s);
    assert(s[i] == (m@[i].0@, m@[i].1@));
    s.to_multiset_ensures();
    t.to_multiset_ensures();
    assert(s.contains(s[i]));
    assert(t.to_multiset().count(s[i]) > 0);
    assert(t.contains(s[i]));
    let k = choose|k: int| 0 <= k < t.len() && t[k] == s[i];
    lemma_line_in(t, k);
}

/// The value of a resource is that of the container that is named, or else of the pod's first:
/// its limit or request in whole cores, or in bytes, rounded up, where no unit is asked for.
pub proof fn law_resources_are_told_in_units(
    pod: Pod,
    sel: ResourceFieldSelector,
    readings: Seq<(String, i64)>,
    q: Seq<char>,
)
    requires
        pod.spec is Some,
        pod.spec->0.containers@.len() > 0,
        sel.container_name is None,
        sel.divisor is None,
    ensures
        ({
            let c = pod.spec->0.containers@[0];
            let v = resource_value(pod, sel, readings);
            let m = quantity::millicores(q, readings);
            let b = quantity::memory_bytes(q);
            &&& (sel.resource@ == "limits.cpu"@ && limit_of(c, "cpu"@) == Some(q)) || (sel.resource@
                == "requests.cpu"@ && request_of(c, "cpu"@) == Some(q)) ==> m >= 0 ==> exists|n: int|
                v == Ok::<Seq<char>, Seq<char>>(#[trigger] number::decimal(n)) && n * 1000 >= m && (n
                    - 1) * 1000 < m
            &&& (sel.resource@ == "limits.memory"@ && limit_of(c, "memory"@) == Some(q)) || (
            sel.resource@ == "requests.memory"@ && request_of(c, "memory"@) == Some(q)) ==> b >= 0
                ==> v == Ok::<Seq<char>, Seq<char>>(number::decimal(b))
            &&& (sel.resource@ == "limits.ephemeral-storage"@ && limit_of(c, "ephemeral-storage"@)
                == Some(q)) || (sel.resource@ == "requests.ephemeral-storage"@ && request_of(
                c,
                "ephemeral-storage"@,
            ) == Some(q)) ==> b >= 0 ==> v == Ok::<Seq<char>, Seq<char>>(number::decimal(b))
        }),
{
    reveal_strlit("limits.cpu");
    reveal_strlit("requests.cpu");
    reveal_strlit("limits.memory");
    reveal_strlit("requests.memory");
    reveal_strlit("limits.ephemeral-storage");
    reveal_strlit("requests.ephemeral-storage");
    assert("limits.cpu"@.len() == 10 && "requests.cpu"@.len() == 12);
    assert("limits.memory"@.len() == 13 && "requests.memory"@.len() == 15);
    assert("limits.ephemeral-storage"@.len() == 24 && "requests.ephemeral-storage"@.len() == 26);
    let m = quantity::millicores(q, readings);
    let b = quantity::memory_bytes(q);
    if m >= 0 {
        quantity::law_units_round_up(m, 1000);
        let n = quantity::units(m, 1000);
        assert(number::decimal(n) == number::decimal(quantity::units(m, 1000)));
    }
    if b >= 0 {
        assert(quantity::units(b, 1) == b);
    }
}

/// A selector that names a container speaks of the first of that name, and is refused where
/// there is none; one for a resource that is not known is refused.
pub proof fn law_selectors_speak_of_their_container(
    pod: Pod,
    sel: ResourceFieldSelector,
    readings: Seq<(String, i64)>,
)
    requires
        pod.spec is Some,
    ensures
        sel.container_name matches Some(name) ==> {
            let c = container_named(pod.spec->0.containers@, name@);
            &&& c is None ==> resource_value(pod, sel, readings) is Err
            &&& c matches Some(x) ==> selected_container(pod, sel) == Ok::<Container, Seq<char>>(x)
        },
        sel.container_name is None && pod.spec->0.containers@.len() == 0 ==> resource_value(
            pod,
            sel,
            readings,
        ) is Err,
{
}

/// The value of a key of a config map or secret is what the map holds under the key, as text,
/// and is refused where there is no such map, key or text.
pub proof fn law_keys_give_their_values(
    map: Option<ConfigMap>,
    secret: Option<Secret>,
    namespace: Seq<char>,
    name: Seq<char>,
    key: Seq<char>,
)
    ensures
        map is None ==> config_map_value(map, namespace, name, key) is Err,
        map matches Some(m) ==> {
            let v = api::opt_lookup(m.data, key);
            &&& v is None ==> config_map_value(map, namespace, name, key) is Err
            &&& v matches Some(t) ==> config_map_value(map, namespace, name, key) == Ok::<
                Seq<char>,
                Seq<char>,
            >(t)
        },
        secret is None ==> secret_value(secret, namespace, name, key) is Err,
        secret matches Some(s) ==> {
            let v = api::opt_lookup_bytes(s.data, key);
            &&& v is None ==> secret_value(secret, namespace, name, key) is Err
            &&& v matches Some(b) ==> {
                &&& valid_utf8(b) ==> secret_value(secret, namespace, name, key) == Ok::<
                    Seq<char>,
                    Seq<char>,
                >(decode_utf8(b))
                &&& !valid_utf8(b) ==> secret_value(secret, namespace, name, key) is Err
            }
        },
{
}

/// What a container may use and what it asks for are what its description says.
pub proof fn law_limits_and_requests_are_those_described(c: Container, name: Seq<char>)
    ensures
        c.resources is None ==> limit_of(c, name) is None && request_of(c, name) is None,
        c.resources matches Some(r) ==> {
            &&& limit_of(c, name) == api::opt_lookup(r.limits, name)
            &&& request_of(c, name) == api::opt_lookup(r.requests, name)
        },
{
}

/// A resource is told in the units that are asked for, rounded up; where the container has no
/// limit or request it is what a node of four cores and eight gibibytes has.
pub proof fn law_resources_are_told_in_the_units_asked_for(
    pod: Pod,
    sel: ResourceFieldSelector,
    readings: Seq<(String, i64)>,
)
    requires
        pod.spec is Some,
        pod.spec->0.containers@.len() > 0,
        sel.container_name is None,
    ensures
        ({
            let c = pod.spec->0.containers@[0];
            let v = resource_value(pod, sel, readings);
            let plain = sel.divisor is None || sel.divisor->0@ == "0"@ || sel.divisor->0@ == "1"@;
            let cpu = sel.resource@ == "limits.cpu"@ || sel.resource@ == "requests.cpu"@;
            let limits = sel.resource@ == "limits.cpu"@ || sel.resource@ == "limits.memory"@
                || sel.resource@ == "limits.ephemeral-storage"@;
            let storage = sel.resource@ == "limits.ephemeral-storage"@ || sel.resource@
                == "requests.ephemeral-storage"@;
            let memory = storage || sel.resource@ == "limits.memory"@ || sel.resource@
                == "requests.memory"@;
            let name = if cpu {
                "cpu"@
            } else if storage {
                "ephemeral-storage"@
            } else {
                "memory"@
            };
            let raw = if limits {
                limit_of(c, name)
            } else {
                request_of(c, name)
            };
            &&& cpu ==> {
                let m = match raw {
                    Some(q) => quantity::millicores(q, readings),
                    None => 4000,
                };
                let unit = if plain {
                    1000
                } else {
                    quantity::millicores(sel.divisor->0@, readings)
                };
                m >= 0 && unit >= 1 ==> is_rounded_up(v, m, unit)
            }
            &&& memory ==> {
                let b = match raw {
                    Some(q) => quantity::memory_bytes(q),
                    None => 8 * 1024 * 1024 * 1024int,
                };
                let unit = if plain {
                    1
                } else {
                    quantity::memory_bytes(sel.divisor->0@)
                };
                b >= 0 && unit >= 1 ==> is_rounded_up(v, b, unit)
            }
            &&& !cpu && !memory ==> v is Err
        }),
{
    reveal_strlit("limits.cpu");
    reveal_strlit("requests.cpu");
    reveal_strlit("limits.memory");
    reveal_strlit("requests.memory");
    reveal_strlit("limits.ephemeral-storage");
    reveal_strlit("requests.ephemeral-storage");
    assert("limits.cpu"@.len() == 10 && "requests.cpu"@.len() == 12 && "limits.memory"@.len() == 13
        && "requests.memory"@.len() == 15 && "limits.ephemeral-storage"@.len() == 24
        && "requests.ephemeral-storage"@.len() == 26);
    if let Ok((n, d)) = resource_amount(pod, sel, readings) {
        if n >= 0 && d >= 1 {
            lemma_units_round_up(n, d);
            assert(resource_value(pod, sel, readings) == Ok::<Seq<char>, Seq<char>>(
                number::decimal(quantity::units(n, d)),
            ));
        }
    }
}

/// The answer is the number of units that the amount makes up, the last one in part.
pub open spec fn is_rounded_up(v: Result<Seq<char>, Seq<char>>, amount: int, unit: int) -> bool {
    exists|n: int|
        v == Ok::<Seq<char>, Seq<char>>(#[trigger] number::decimal(n)) && n * unit >= amount && (n
            - 1) * unit < amount
}

proof fn lemma_units_round_up(n: int, d: int)
    requires
        n >= 0,
        d >= 1,
    ensures
        quantity::units(n, d) * d >= n,
        (quantity::units(n, d) - 1) * d < n,
{
    let u = quantity::units(n, d);
    assert(u == (n + d - 1) / d);
    assert(u * d >= n && (u - 1) * d < n) by (nonlinear_arith)
        requires
            u == (n + d - 1) / d,
            d >= 1,
            n >= 0,
    ;
}

/// What is not known of a pod is told as the text that stands for it, and what is no field is
/// refused.
pub proof fn law_missing_and_unknown_fields(pod: Pod, path: Seq<char>)
    ensures
        pod.spec is None || pod.spec->0.node_name is None ==> field_value(pod, "spec.nodeName"@)
            == Ok::<Seq<char>, Seq<char>>(Seq::empty()),
        pod.spec is None ==> field_value(pod, "spec.serviceAccountName"@) == Ok::<
            Seq<char>,
            Seq<char>,
        >("default"@),
        pod.status is None || pod.status->0.pod_ip is None ==> field_value(pod, "status.podIP"@)
            == Ok::<Seq<char>, Seq<char>>(Seq::empty()),
        pod.status is None || pod.status->0.host_ip is None ==> field_value(pod, "status.hostIP"@)
            == Ok::<Seq<char>, Seq<char>>("127.0.0.1"@),
        path != "metadata.name"@ && path != "metadata.namespace"@ && path != "metadata.uid"@ && path
            != "spec.nodeName"@ && path != "spec.serviceAccountName"@ && path != "status.podIP"@
            && path != "status.hostIP"@ && path != "metadata.labels"@ && path
            != "metadata.annotations"@ && !(text::begins(path, "metadata.labels['"@) && text::ends(
            path,
            "']"@,
        )) && !(text::begins(path, "metadata.annotations['"@) && text::ends(path, "']"@))
            ==> field_value(pod, path) is Err,
{
    law_fields_are_told_as_they_are(pod);
    reveal_strlit("metadata.name");
    reveal_strlit("metadata.namespace");
    reveal_strlit("metadata.uid");
    reveal_strlit("spec.nodeName");
    reveal_strlit("spec.serviceAccountName");
    reveal_strlit("status.podIP");
    reveal_strlit("status.hostIP");
    assert("metadata.name"@[0] == 'm' && "metadata.namespace"@[0] == 'm' && "metadata.uid"@[0] == 'm');
    assert("spec.nodeName"@[0] == 's' && "spec.serviceAccountName"@[0] == 's');
    assert("spec.nodeName"@.len() == 13 && "spec.serviceAccountName"@.len() == 23);
    assert("status.podIP"@.len() == 12 && "status.hostIP"@.len() == 13);
    assert("spec.nodeName"@[1] == 'p' && "status.hostIP"@[1] == 't');
    assert("status.podIP"@[0] == 's' && "status.hostIP"@[0] == 's');
}

} // verus!
