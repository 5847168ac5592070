//! The ports that a container exposes and those that the host forwards to it.

use crate::api::{Container, ContainerPort, Pod};
use crate::downward;
use crate::number;
use crate::text;
use vstd::prelude::*;
use vstd::string::*;

verus! {

/// A port of the host that leads to a container's port, which `key` names.
#[derive(Clone, Debug, Default)]
pub struct PortBinding {
    pub key: String,
    pub host_ip: String,
    pub host_port: String,
}

/// The daemon's name of a container's port: `80/tcp`.
pub open spec fn port_key_text(p: ContainerPort) -> Seq<char> {
    number::decimal(p.container_port as int) + "/"@ + text::lower(
        downward::text_or(p.protocol, "TCP"@),
    )
}

/// The address of the host at which a port is taken. Where `any` says so, an empty
/// address and `::` stand for all addresses.
pub open spec fn bind_ip_text(p: ContainerPort, any: bool) -> Seq<char> {
    let ip = downward::text_or(p.host_ip, "0.0.0.0"@);
    if any && (ip.len() == 0 || ip == "::"@) {
        "0.0.0.0"@
    } else {
        ip
    }
}

/// The pairs with the key `k` set to `v`: in its place, or at the end.
pub open spec fn put<V>(s: Seq<(Seq<char>, V)>, k: Seq<char>, v: V) -> Seq<(Seq<char>, V)>
    decreases s.len(),
{
    if s.len() == 0 {
        seq![(k, v)]
    } else if s[0].0 == k {
        seq![(k, v)] + s.drop_first()
    } else {
        seq![s[0]] + put(s.drop_first(), k, v)
    }
}

/// The keys of the ports `ps`, each once.
pub open spec fn exposed(ps: Seq<ContainerPort>) -> Seq<Seq<char>>
    decreases ps.len(),
{
    if ps.len() == 0 {
        Seq::empty()
    } else {
        let rest = exposed(ps.drop_last());
        if rest.contains(port_key_text(ps.last())) {
            rest
        } else {
            rest.push(port_key_text(ps.last()))
        }
    }
}

/// The host's address and port of each port in `ps` that has one, by key. A later port
/// takes the place of an earlier one with its key.
pub open spec fn bound(ps: Seq<ContainerPort>, any: bool) -> Seq<(Seq<char>, (Seq<char>, Seq<char>))>
    decreases ps.len(),
{
    if ps.len() == 0 {
        Seq::empty()
    } else {
        let rest = bound(ps.drop_last(), any);
        let p = ps.last();
        match p.host_port {
            Some(h) => put(
                rest,
                port_key_text(p),
                (bind_ip_text(p, any), number::decimal(h as int)),
            ),
            None => rest,
        }
    }
}

/// A binding as key, address and port.
pub open spec fn binding_view(b: PortBinding) -> (Seq<char>, (Seq<char>, Seq<char>)) {
    (b.key@, (b.host_ip@, b.host_port@))
}

/// The bindings of a list as keys, addresses and ports.
pub open spec fn bindings_view(v: Seq<PortBinding>) -> Seq<(Seq<char>, (Seq<char>, Seq<char>))> {
    v.map_values(|b: PortBinding| binding_view(b))
}

/// The ports of a container.
pub open spec fn ports_of(c: Container) -> Seq<ContainerPort> {
    match c.ports {
        Some(v) => v@,
        None => Seq::empty(),
    }
}

/// The ports of all of the containers, one container after another.
pub open spec fn all_ports(cs: Seq<Container>) -> Seq<ContainerPort>
    decreases cs.len(),
{
    if cs.len() == 0 {
        Seq::empty()
    } else {
        all_ports(cs.drop_last()) + ports_of(cs.last())
    }
}

/// Setting a key keeps the keys distinct and gives the key its value.
pub proof fn law_put_sets_one_key<V>(s: Seq<(Seq<char>, V)>, k: Seq<char>, v: V)
    requires
        forall|i: int, j: int| 0 <= i < j < s.len() ==> (#[trigger] s[i]).0 != (#[trigger] s[j]).0,
    ensures
        put(s, k, v).contains((k, v)),
        forall|i: int, j: int|
            0 <= i < j < put(s, k, v).len() ==> (#[trigger] put(s, k, v)[i]).0 != (
            #[trigger] put(s, k, v)[j]).0,
        forall|i: int|
            0 <= i < put(s, k, v).len() ==> (#[trigger] put(s, k, v)[i]) == (k, v) || s.contains(
                put(s, k, v)[i],
            ),
    decreases s.len(),
{
    let r = put(s, k, v);
    if s.len() == 0 {
        assert(r[0] == (k, v));
    } else {
        let t = s.drop_first();
        assert forall|i: int, j: int| 0 <= i < j < t.len() implies (#[trigger] t[i]).0 != (
        #[trigger] t[j]).0 by {
            assert(t[i] == s[i + 1] && t[j] == s[j + 1]);
        }
        if s[0].0 == k {
            assert(r[0] == (k, v));
            assert forall|i: int| 0 <= i < r.len() implies (#[trigger] r[i]) == (k, v)
                || s.contains(r[i]) by {
                if i > 0 {
                    assert(r[i] == s[i]);
                }
            }
            assert forall|i: int, j: int| 0 <= i < j < r.len() implies (#[trigger] r[i]).0 != (
            #[trigger] r[j]).0 by {
                assert(r[j] == s[j]);
                assert(s[i].0 == r[i].0);
            }
        } else {
            law_put_sets_one_key(t, k, v);
            let u = put(t, k, v);
            let w = choose|w: int| 0 <= w < u.len() && u[w] == (k, v);
            assert(r[w + 1] == (k, v));
            assert forall|i: int| 0 <= i < r.len() implies (#[trigger] r[i]) == (k, v)
                || s.contains(r[i]) by {
                if i > 0 {
                    assert(r[i] == u[i - 1]);
                    if u[i - 1] != (k, v) {
                        let m = choose|m: int| 0 <= m < t.len() && t[m] == u[i - 1];
                        assert(s[m + 1] == r[i]);
                    }
                } else {
                    assert(r[0] == s[0]);
                }
            }
            assert forall|i: int, j: int| 0 <= i < j < r.len() implies (#[trigger] r[i]).0 != (
            #[trigger] r[j]).0 by {
                assert(r[j] == u[j - 1]);
                if i > 0 {
                    assert(r[i] == u[i - 1]);
                } else if u[j - 1] != (k, v) {
                    let m = choose|m: int| 0 <= m < t.len() && t[m] == u[j - 1];
                    assert(s[m + 1] == u[j - 1]);
                    assert(s[0] == r[0]);
                }
            }
        }
    }
}

/// The daemon's name of a container's port.
pub fn port_key(p: &ContainerPort) -> (r: String)
    ensures
        r@ == port_key_text(*p),
{
    let n = number::show_i64(p.container_port as i64);
    let proto = downward::str_or(&p.protocol, "TCP").to_lowercase();
    text::cat3(n.as_str(), "/", proto.as_str())
}

/// The address of the host at which a port is taken.
pub fn bind_ip(p: &ContainerPort, any: bool) -> (r: String)
    ensures
        r@ == bind_ip_text(*p, any),
{
    let ip = downward::str_or(&p.host_ip, "0.0.0.0");
    if any && (ip.is_empty() || text::same(ip, "::")) {
        String::from_str("0.0.0.0")
    } else {
        String::from_str(ip)
    }
}

/// Sets the binding of a key: in its place, or at the end.
fn put_binding(v: &mut Vec<PortBinding>, b: PortBinding)
    ensures
        bindings_view(final(v)@) == put(bindings_view(old(v)@), b.key@, (b.host_ip@, b.host_port@)),
{
    let ghost s = bindings_view(v@);
    let ghost k = b.key@;
    let ghost val = (b.host_ip@, b.host_port@);
    let n: usize = v.len();
    let mut i: usize = 0;
    assert(s.skip(0) == s);
    assert(s.take(0) + put(s, k, val) =~= put(s, k, val));
    while i < n
        invariant
            i <= n,
            n == v@.len(),
            v@ == old(v)@,
            s == bindings_view(v@),
            k == b.key@,
            val == (b.host_ip@, b.host_port@),
            put(s, k, val) == s.take(i as int) + put(s.skip(i as int), k, val),
        decreases n - i,
    {
        let ghost t = s.skip(i as int);
        assert(t[0] == binding_view(v@[i as int]));
        assert(t.drop_first() == s.skip(i + 1));
        if text::same(v[i].key.as_str(), b.key.as_str()) {
            v.set(i, b);
            assert(bindings_view(v@) =~= s.take(i as int) + (seq![(k, val)] + t.drop_first()));
            return;
        }
        assert(s.take(i as int) + (seq![t[0]] + put(t.drop_first(), k, val)) =~= s.take(i + 1)
            + put(s.skip(i + 1), k, val));
        i += 1;
    }
    assert(s.skip(n as int) =~= Seq::<(Seq<char>, (Seq<char>, Seq<char>))>::empty());
    assert(s.take(n as int) == s);
    v.push(b);
    assert(bindings_view(v@) =~= s + seq![(k, val)]);
}

/// Adds the ports `ps` to the keys and bindings of the ports `before` them.
fn add_ports(
    keys: &mut Vec<String>,
    bindings: &mut Vec<PortBinding>,
    ps: &Vec<ContainerPort>,
    any: bool,
    Ghost(before): Ghost<Seq<ContainerPort>>,
)
    requires
        text::texts(old(keys)@) == exposed(before),
        bindings_view(old(bindings)@) == bound(before, any),
    ensures
        text::texts(final(keys)@) == exposed(before + ps@),
        bindings_view(final(bindings)@) == bound(before + ps@, any),
{
    let mut i: usize = 0;
    assert(before + ps@.take(0) =~= before);
    while i < ps.len()
        invariant
            i <= ps@.len(),
            text::texts(keys@) == exposed(before + ps@.take(i as int)),
            bindings_view(bindings@) == bound(before + ps@.take(i as int), any),
        decreases ps@.len() - i,
    {
        let ghost done = before + ps@.take(i as int);
        let ghost next = before + ps@.take(i as int + 1);
        assert(next.drop_last() =~= done);
        assert(next.last() == ps@[i as int]);
        let p = &ps[i];
        let key = port_key(p);
        if let Some(h) = p.host_port {
            let b = PortBinding {
                key: key.clone(),
                host_ip: bind_ip(p, any),
                host_port: number::show_i64(h as i64),
            };
            put_binding(bindings, b);
        }
        if !text::list_has(keys, key.as_str()) {
            text::push_text(keys, key);
        }
        i += 1;
    }
    assert(ps@.take(ps@.len() as int) == ps@);
}

/// The ports that one container exposes, and those that the host forwards to it.
pub fn container_ports(c: &Container, any: bool) -> (r: (Vec<String>, Vec<PortBinding>))
    ensures
        text::texts(r.0@) == exposed(ports_of(*c)),
        bindings_view(r.1@) == bound(ports_of(*c), any),
{
    let mut keys: Vec<String> = Vec::new();
    let mut bindings: Vec<PortBinding> = Vec::new();
    assert(text::texts(keys@) =~= Seq::<Seq<char>>::empty());
    assert(bindings_view(bindings@) =~= Seq::<(Seq<char>, (Seq<char>, Seq<char>))>::empty());
    if let Some(ps) = &c.ports {
        add_ports(&mut keys, &mut bindings, ps, any, Ghost(Seq::empty()));
        assert(Seq::<ContainerPort>::empty() + ps@ =~= ps@);
    }
    (keys, bindings)
}

/// The ports that the containers of a pod expose, and those that the host forwards to
/// them.
pub fn pod_ports(pod: &Pod, any: bool) -> (r: (Vec<String>, Vec<PortBinding>))
    ensures
        ({
            let ps = match pod.spec {
                Some(s) => all_ports(s.containers@),
                None => Seq::empty(),
            };
            text::texts(r.0@) == exposed(ps) && bindings_view(r.1@) == bound(ps, any)
        }),
{
    let mut keys: Vec<String> = Vec::new();
    let mut bindings: Vec<PortBinding> = Vec::new();
    assert(text::texts(keys@) =~= Seq::<Seq<char>>::empty());
    assert(bindings_view(bindings@) =~= Seq::<(Seq<char>, (Seq<char>, Seq<char>))>::empty());
    if let Some(s) = &pod.spec {
        let mut i: usize = 0;
        assert(s.containers@.take(0) == Seq::<Container>::empty());
        while i < s.containers.len()
            invariant
                i <= s.containers@.len(),
                text::texts(keys@) == exposed(all_ports(s.containers@.take(i as int))),
                bindings_view(bindings@) == bound(all_ports(s.containers@.take(i as int)), any),
            decreases s.containers@.len() - i,
        {
            let ghost before = all_ports(s.containers@.take(i as int));
            assert(s.containers@.take(i as int + 1).drop_last() == s.containers@.take(i as int));
            assert(s.containers@.take(i as int + 1).last() == s.containers@[i as int]);
            if let Some(ps) = &s.containers[i].ports {
                add_ports(&mut keys, &mut bindings, ps, any, Ghost(before));
            } else {
                assert(before + Seq::<ContainerPort>::empty() =~= before);
            }
            i += 1;
        }
        assert(s.containers@.take(s.containers@.len() as int) == s.containers@);
    }
    (keys, bindings)
}

/// The ports that are exposed are those of the list, by number and protocol, each once.
pub proof fn law_ports_are_exposed_once(ps: Seq<ContainerPort>)
    ensures
        forall|i: int|
            0 <= i < ps.len() ==> exposed(ps).contains(
                number::decimal((#[trigger] ps[i]).container_port as int) + "/"@ + text::lower(
                    if ps[i].protocol is Some {
                        ps[i].protocol->0@
                    } else {
                        "TCP"@
                    },
                ),
            ),
        forall|k: int|
            0 <= k < exposed(ps).len() ==> exists|i: int|
                0 <= i < ps.len() && (#[trigger] exposed(ps)[k]) == port_key_text(#[trigger] ps[i]),
        exposed(ps).no_duplicates(),
    decreases ps.len(),
{
    if ps.len() > 0 {
        let short = ps.drop_last();
        let before = exposed(short);
        let now = exposed(ps);
        law_ports_are_exposed_once(short);
        assert(forall|i: int| 0 <= i < short.len() ==> (#[trigger] short[i]) == ps[i]);
        assert forall|x: Seq<char>| before.contains(x) implies now.contains(x) by {
            let k = choose|k: int| 0 <= k < before.len() && before[k] == x;
            assert(now[k] == x);
        }
        assert(now.contains(port_key_text(ps.last()))) by {
            if !before.contains(port_key_text(ps.last())) {
                assert(now[before.len() as int] == port_key_text(ps.last()));
            }
        }
        assert forall|i: int| 0 <= i < ps.len() implies now.contains(
            number::decimal((#[trigger] ps[i]).container_port as int) + "/"@ + text::lower(
                if ps[i].protocol is Some {
                    ps[i].protocol->0@
                } else {
                    "TCP"@
                },
            ),
        ) by {
            if i < short.len() {
                assert(short[i] == ps[i]);
            }
        }
        assert forall|k: int| 0 <= k < now.len() implies exists|i: int|
            0 <= i < ps.len() && (#[trigger] now[k]) == port_key_text(#[trigger] ps[i]) by {
            if k < before.len() {
                assert(now[k] == before[k]);
                let i = choose|i: int|
                    0 <= i < short.len() && before[k] == port_key_text(#[trigger] short[i]);
                assert(short[i] == ps[i]);
            } else {
                assert(ps[ps.len() - 1] == ps.last());
            }
        }
    }
}

/// What is bound to a key.
pub open spec fn bound_to<V>(s: Seq<(Seq<char>, V)>, k: Seq<char>) -> Option<V>
    decreases s.len(),
{
    if s.len() == 0 {
        None
    } else if s[0].0 == k {
        Some(s[0].1)
    } else {
        bound_to(s.drop_first(), k)
    }
}

/// A key that is set has the value, and every other key what it had.
pub proof fn law_put_changes_one_key<V>(s: Seq<(Seq<char>, V)>, k: Seq<char>, v: V, other: Seq<char>)
    ensures
        bound_to(put(s, k, v), k) == Some(v),
        other != k ==> bound_to(put(s, k, v), other) == bound_to(s, other),
    decreases s.len(),
{
    let r = put(s, k, v);
    if s.len() == 0 {
        assert(r[0] == (k, v));
        assert(r.drop_first() =~= Seq::<(Seq<char>, V)>::empty());
        assert(bound_to(r.drop_first(), other) is None);
    } else if s[0].0 == k {
        assert(r[0] == (k, v));
        assert(r.drop_first() =~= s.drop_first());
    } else {
        assert(r[0] == s[0]);
        assert(r.drop_first() =~= put(s.drop_first(), k, v));
        law_put_changes_one_key(s.drop_first(), k, v, other);
    }
}

/// The port of the host that a container's port asks for leads to it, at the address that it
/// asks for, all addresses where it asks for none; of several with one number and protocol the
/// last that asks for a port of the host decides. A port that asks for none has none.
pub proof fn law_host_ports_lead_to_their_containers(
    ps: Seq<ContainerPort>,
    any: bool,
    i: int,
)
    requires
        0 <= i < ps.len(),
        ps[i].host_port is Some,
        forall|j: int|
            i < j < ps.len() && (#[trigger] ps[j]).host_port is Some ==> port_key_text(ps[j])
                != port_key_text(ps[i]),
    ensures
        ({
            let ip = match ps[i].host_ip {
                Some(a) => a@,
                None => "0.0.0.0"@,
            };
            let at = if any && (ip.len() == 0 || ip == "::"@) {
                "0.0.0.0"@
            } else {
                ip
            };
            bound_to(bound(ps, any), port_key_text(ps[i])) == Some(
                (at, number::decimal(ps[i].host_port->0 as int)),
            )
        }),
    decreases ps.len(),
{
    let short = ps.drop_last();
    let last = ps.last();
    let key = port_key_text(ps[i]);
    if last.host_port is Some {
        law_put_changes_one_key(
            bound(short, any),
            port_key_text(last),
            (bind_ip_text(last, any), number::decimal(last.host_port->0 as int)),
            key,
        );
    }
    if i < ps.len() - 1 {
        assert(short[i] == ps[i]);
        assert(forall|j: int| 0 <= j < short.len() ==> (#[trigger] short[j]) == ps[j]);
        law_host_ports_lead_to_their_containers(short, any, i);
        assert(ps[ps.len() - 1] == last);
    }
}

/// A key that no port with a port of the host has is bound to nothing.
pub proof fn law_nothing_is_bound_unasked(ps: Seq<ContainerPort>, any: bool, key: Seq<char>)
    requires
        forall|j: int|
            0 <= j < ps.len() && (#[trigger] ps[j]).host_port is Some ==> port_key_text(ps[j])
                != key,
    ensures
        bound_to(bound(ps, any), key) is None,
    decreases ps.len(),
{
    if ps.len() > 0 {
        let short = ps.drop_last();
        let last = ps.last();
        assert(ps[ps.len() - 1] == last);
        assert(forall|j: int| 0 <= j < short.len() ==> (#[trigger] short[j]) == ps[j]);
        law_nothing_is_bound_unasked(short, any, key);
        if last.host_port is Some {
            law_put_changes_one_key(
                bound(short, any),
                port_key_text(last),
                (bind_ip_text(last, any), number::decimal(last.host_port->0 as int)),
                key,
            );
        }
    }
}

/// The ports of a pod are those of all of its containers, in order.
pub proof fn law_a_pods_ports_are_its_containers_ports(cs: Seq<Container>, i: int, p: ContainerPort)
    requires
        0 <= i < cs.len(),
        cs[i].ports is Some,
        cs[i].ports->0@.contains(p),
    ensures
        all_ports(cs).contains(p),
    decreases cs.len(),
{
    let short = cs.drop_last();
    let before = all_ports(short);
    let own = ports_of(cs.last());
    if i < cs.len() - 1 {
        assert(short[i] == cs[i]);
        law_a_pods_ports_are_its_containers_ports(short, i, p);
        let k = choose|k: int| 0 <= k < before.len() && before[k] == p;
        assert((before + own)[k] == p);
    } else {
        let k = choose|k: int| 0 <= k < own.len() && own[k] == p;
        assert((before + own)[before.len() + k] == p);
    }
}

} // verus!
